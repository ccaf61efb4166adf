pub mod asset;

pub use asset::{AssetBase, AssetBaseView};
pub mod asset_enum;

pub use asset_enum::{Filter, PixelFormat, WrapMode};
pub mod texture;

pub use texture::{Texture2D, TextureBase, TextureBaseView};
pub mod image;

pub use image::ImageAsset;
pub mod buffer_asset;
pub mod font;
pub mod scene;
pub mod text_asset;

pub use buffer_asset::BufferAsset;
pub use font::{Font, FontType};
pub use scene::SceneAsset;
pub use text_asset::TextAsset;
pub mod render_texture;
pub mod texture_cube;

pub use render_texture::{IRenderTextureCreateInfo, RenderTexture};
pub use texture_cube::{FaceIndex, ITextureCubeMipmap, MipmapMode, TextureCube};
pub mod mesh;

pub use mesh::{AttributeType, SubMeshInfo, VertexAttribute};
pub mod effect;
pub mod material;

pub use effect::{
    BlendFactor, BlendState, ComparisonFunc, CullMode, DepthStencilState, ShaderInfo,
    ShaderStageFlagBit, ShaderStageInfo, UniformBlock, UniformInfo, UniformSamplerTexture,
    UniformType,
};
pub use material::{MacroPatch, MaterialInfo, PassInfo};
pub mod rendering_sub_mesh;
pub mod resource_loader;

pub use rendering_sub_mesh::IFlatBuffer;
pub use resource_loader::{LoadStatus, ResourceLoader};
pub mod asset_manager;

pub use asset_manager::{AssetManager, LoadState};
