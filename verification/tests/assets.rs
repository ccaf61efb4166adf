use cocos_engine::assets::{
    AssetBase, AttributeType, BlendFactor, BlendState, BufferAsset, ComparisonFunc,
    DepthStencilState, FaceIndex, Filter, IFlatBuffer, IRenderTextureCreateInfo,
    ITextureCubeMipmap, ImageAsset, MipmapMode, PixelFormat, RenderTexture, ShaderInfo,
    ShaderStageFlagBit, ShaderStageInfo, TextAsset, Texture2D, TextureBase, TextureCube,
    UniformBlock, UniformInfo, UniformType, VertexAttribute, WrapMode,
};

#[test]
fn test_asset_base_new() {
    let asset = AssetBase::new();
    assert_eq!(asset.uuid, "");
    assert_eq!(asset.name, "");
    assert!(asset.loaded);
    assert!(!asset.is_default);
    assert_eq!(asset.get_asset_ref_count(), 0);
}

#[test]
fn test_asset_base_uuid() {
    let mut asset = AssetBase::new();
    asset.set_uuid("test-uuid-1234");
    assert_eq!(asset.get_uuid(), "test-uuid-1234");
}

#[test]
fn test_asset_base_ref_count() {
    let mut asset = AssetBase::new();
    asset.add_asset_ref();
    asset.add_asset_ref();
    assert_eq!(asset.get_asset_ref_count(), 2);
    asset.dec_asset_ref();
    assert_eq!(asset.get_asset_ref_count(), 1);
    asset.dec_asset_ref();
    asset.dec_asset_ref();
    assert_eq!(asset.get_asset_ref_count(), 0);
}

#[test]
fn test_asset_base_validate() {
    let asset = AssetBase::new();
    assert!(asset.validate());
}

#[test]
fn test_buffer_asset_new() {
    let asset = BufferAsset::new();
    assert!(!asset.validate());
    assert!(asset.get_buffer().is_none());
}

#[test]
fn test_buffer_asset_set_buffer() {
    let mut asset = BufferAsset::new();
    asset.set_buffer(vec![1, 2, 3, 4]);
    assert!(asset.validate());
    assert_eq!(asset.get_buffer().unwrap().len(), 4);
}

#[test]
fn test_buffer_asset_default() {
    let asset = BufferAsset::default();
    assert!(!asset.validate());
}

#[test]
fn test_shader_info_add_stage() {
    let mut shader = ShaderInfo::new("test-shader");
    shader.add_stage(ShaderStageInfo::new(ShaderStageFlagBit::Vertex, "void main() {}"));
    shader.add_stage(ShaderStageInfo::new(
        ShaderStageFlagBit::Fragment,
        "void main() { gl_FragColor = vec4(1.0); }",
    ));
    assert_eq!(shader.stages.len(), 2);
}

#[test]
fn test_uniform_block() {
    let mut block = UniformBlock::new("CCGlobal", 0);
    block.add_member(UniformInfo::new("cc_time", UniformType::Vec4));
    block.add_member(UniformInfo::new("cc_screenSize", UniformType::Vec4));
    assert_eq!(block.members.len(), 2);
    assert_eq!(block.binding, 0);
}

#[test]
fn test_blend_state_default() {
    let state = BlendState::default();
    assert!(!state.is_blend);
    assert_eq!(state.blend_src, BlendFactor::SrcAlpha);
    assert_eq!(state.blend_dst, BlendFactor::OneMinusSrcAlpha);
}

#[test]
fn test_depth_stencil_state_default() {
    let state = DepthStencilState::default();
    assert!(state.depth_test);
    assert!(state.depth_write);
    assert_eq!(state.depth_func, ComparisonFunc::Less);
}

#[test]
fn test_image_asset_new() {
    let img = ImageAsset::new();
    assert_eq!(img.width, 0);
    assert_eq!(img.height, 0);
    assert_eq!(img.format, PixelFormat::Rgba8888);
    assert!(!img.compressed);
}

#[test]
fn test_image_asset_with_data() {
    let data = vec![255u8; 4 * 4 * 4];
    let img = ImageAsset::with_data(4, 4, PixelFormat::Rgba8888, data.clone());
    assert_eq!(img.width, 4);
    assert_eq!(img.height, 4);
    assert_eq!(img.data, data);
    assert!(!img.compressed);
}

#[test]
fn test_image_asset_compressed() {
    let img = ImageAsset::with_data(4, 4, PixelFormat::RgbaEtc2, vec![0; 8]);
    assert!(img.is_compressed());
}

#[test]
fn test_image_asset_expected_size() {
    let data = vec![0u8; 4 * 4 * 4];
    let img = ImageAsset::with_data(4, 4, PixelFormat::Rgba8888, data);
    assert_eq!(img.expected_data_size(), 64);
}

#[test]
fn test_image_asset_set_format() {
    let mut img = ImageAsset::new();
    img.set_format(PixelFormat::RgbaPvrtc4Bppv1);
    assert!(img.is_compressed());
    img.set_format(PixelFormat::Rgba8888);
    assert!(!img.is_compressed());
}

#[test]
fn test_vertex_attribute() {
    let attr = VertexAttribute::new("a_position", AttributeType::Float, 3);
    assert_eq!(attr.stride(), 12);
}

#[test]
fn test_render_texture_new() {
    let rt = RenderTexture::new();
    assert_eq!(rt.width, 1);
    assert_eq!(rt.height, 1);
    assert_eq!(rt.format, PixelFormat::Rgba8888);
}

#[test]
fn test_render_texture_initialize() {
    let mut rt = RenderTexture::new();
    let info = IRenderTextureCreateInfo {
        name: Some("test_rt".to_string()),
        width: 1024,
        height: 768,
    };
    rt.initialize(&info);
    assert_eq!(rt.width, 1024);
    assert_eq!(rt.height, 768);
}

#[test]
fn test_render_texture_resize() {
    let mut rt = RenderTexture::new();
    rt.resize(512, 512);
    assert_eq!(rt.width, 512);
    assert_eq!(rt.height, 512);
}

#[test]
fn test_render_texture_read_pixels() {
    let rt = RenderTexture::new();
    let pixels = rt.read_pixels(0, 0, 10, 10);
    assert!(pixels.is_empty());
}

#[test]
fn test_flat_buffer() {
    let fb = IFlatBuffer {
        stride: 4,
        count: 3,
        buffer: vec![0, 1, 2, 3, 4, 5, 6, 7, 8, 9, 10, 11],
    };
    assert_eq!(fb.stride, 4);
    assert_eq!(fb.count, 3);
    assert_eq!(fb.buffer.len(), 12);
}

#[test]
fn test_text_asset_new() {
    let asset = TextAsset::new();
    assert_eq!(asset.text, "");
    assert_eq!(asset.to_string(), "");
}

#[test]
fn test_text_asset_with_content() {
    let mut asset = TextAsset::new();
    asset.text = "Hello, World!".to_string();
    assert_eq!(asset.to_string(), "Hello, World!");
}

#[test]
fn test_text_asset_default() {
    let asset = TextAsset::default();
    assert_eq!(asset.text, "");
}

#[test]
fn test_texture_base_new() {
    let tex = TextureBase::new();
    assert_eq!(tex.width, 1);
    assert_eq!(tex.height, 1);
    assert_eq!(tex.format, PixelFormat::Rgba8888);
    assert_eq!(tex.min_filter, Filter::Linear);
    assert_eq!(tex.mag_filter, Filter::Linear);
    assert_eq!(tex.mip_filter, Filter::NoFilter);
    assert_eq!(tex.wrap_s, WrapMode::Repeat);
    assert_eq!(tex.anisotropy, 0);
}

#[test]
fn test_texture_base_set_wrap_mode() {
    let mut tex = TextureBase::new();
    let hash_before = tex.get_hash();
    tex.set_wrap_mode(WrapMode::ClampToEdge, WrapMode::ClampToEdge, WrapMode::Repeat);
    let hash_after = tex.get_hash();
    assert_ne!(hash_before, hash_after);
    assert_eq!(tex.wrap_s, WrapMode::ClampToEdge);
}

#[test]
fn test_texture_base_set_filters() {
    let mut tex = TextureBase::new();
    tex.set_filters(Filter::Nearest, Filter::Nearest);
    assert_eq!(tex.min_filter, Filter::Nearest);
    assert_eq!(tex.mag_filter, Filter::Nearest);
}

#[test]
fn test_texture_base_compressed() {
    let mut tex = TextureBase::new();
    assert!(!tex.is_compressed());
    tex.format = PixelFormat::RgbaEtc2;
    assert!(tex.is_compressed());
}

#[test]
fn test_texture2d_new() {
    let tex = Texture2D::new();
    assert_eq!(tex.mip_level, 1);
    assert_eq!(tex.base.width, 1);
}

#[test]
fn test_texture_cube_new() {
    let tc = TextureCube::new();
    assert_eq!(tc.width, 1);
    assert_eq!(tc.height, 1);
    assert_eq!(tc.mipmap_mode, MipmapMode::NoMipmap);
    assert!(!tc.is_rgbe);
    assert!(tc.mipmaps.is_empty());
}

#[test]
fn test_texture_cube_set_mipmaps() {
    let mut tc = TextureCube::new();
    tc.set_mipmaps(vec![ITextureCubeMipmap::default()]);
    assert_eq!(tc.mipmaps.len(), 1);
}

#[test]
fn test_face_index_values() {
    assert_eq!(FaceIndex::Right as u32, 0);
    assert_eq!(FaceIndex::Back as u32, 5);
}

#[test]
fn test_mipmap_mode_values() {
    assert_eq!(MipmapMode::NoMipmap as u32, 0);
    assert_eq!(MipmapMode::Auto as u32, 1);
    assert_eq!(MipmapMode::BakedConvolutionMap as u32, 2);
}

#[test]
fn assets_pixel_format_tables() {
    assert!(PixelFormat::RgbaAstc12X12.is_compressed());
    assert!(!PixelFormat::Rgb32F.is_compressed());
    assert!(!PixelFormat::RgbEtc1.has_alpha());
    assert!(PixelFormat::RgbaEtc1.has_alpha());
    assert_eq!(PixelFormat::Rgba32F.bytes_per_pixel(), 16);
    assert_eq!(PixelFormat::Rgb888.bytes_per_pixel(), 3);
    assert_eq!(PixelFormat::Ai8.bytes_per_pixel(), 2);
    assert_eq!(PixelFormat::RgbEtc2.bytes_per_pixel(), 0);
    assert_eq!(PixelFormat::default(), PixelFormat::Rgba8888);
}

#[test]
fn assets_texture_hash_value() {
    let mut tex = TextureBase::new();
    tex.set_anisotropy(2);
    // codes: wraps 0,0,0; filters 1,1,0; anisotropy 2
    let expected: u64 = ((1 * 31 + 1) * 31) * 31 + 2;
    assert_eq!(tex.get_hash(), expected);
    tex.set_wrap_mode(WrapMode::ClampToBorder, WrapMode::Repeat, WrapMode::Repeat);
    let expected2: u64 = 3 * 31u64.pow(6) + expected;
    assert_eq!(tex.get_hash(), expected2);
}

#[test]
fn assets_ref_count_and_names() {
    let mut a = AssetBase::default();
    a.dec_asset_ref();
    assert_eq!(a.get_asset_ref_count(), 0);
    a.set_name("hero");
    assert_eq!(a.get_name(), "hero");
    assert_eq!(a.get_native_url(), "");
    assert!(a.is_loaded());
    assert!(!a.is_default());
}

#[test]
fn assets_image_compressed_size_is_data_len() {
    let img = ImageAsset::with_data(1000, 1000, PixelFormat::RgbaAstc4X4, vec![0; 7]);
    assert_eq!(img.expected_data_size(), 7);
    let img2 = ImageAsset::with_data(2, 3, PixelFormat::Rgb565, vec![]);
    assert_eq!(img2.expected_data_size(), 12);
}

#[test]
fn assets_render_texture_unnamed_keeps_format() {
    let mut rt = RenderTexture::new();
    rt.format = PixelFormat::A8;
    rt.reset(&IRenderTextureCreateInfo { name: None, width: 3, height: 4 });
    assert_eq!(rt.format, PixelFormat::A8);
    assert_eq!((rt.width, rt.height), (3, 4));
    rt.initialize(&IRenderTextureCreateInfo { name: Some("x".to_string()), width: 1, height: 1 });
    assert_eq!(rt.format, PixelFormat::Rgba8888);
}

#[test]
fn assets_texture_cube_reset_and_image() {
    let mut tc = TextureCube::new();
    assert!(tc.get_image().is_none());
    let mut m = ITextureCubeMipmap::default();
    m.front = Some("f".to_string());
    tc.set_mipmaps(vec![m]);
    tc.mipmap_mode = MipmapMode::Auto;
    assert_eq!(tc.get_image().unwrap().front.as_deref(), Some("f"));
    tc.reset();
    assert!(tc.mipmaps.is_empty());
    assert_eq!(tc.mipmap_mode, MipmapMode::NoMipmap);
}

#[test]
fn assets_uniform_with_count() {
    let u = UniformInfo::new("lights", UniformType::Vec4).with_count(8);
    assert_eq!(u.count, 8);
    assert_eq!(u.name, "lights");
    let attr = VertexAttribute::new("a_color", AttributeType::UByte, 4);
    assert_eq!(attr.bytes_per_component(), 1);
    assert_eq!(attr.stride(), 4);
}

#[test]
fn test_pixel_format_codes() {
    assert_eq!(PixelFormat::Rgb565.code(), 1);
    assert_eq!(PixelFormat::Rgba8888.code(), 6);
    assert_eq!(PixelFormat::RgbAPvrtc2Bppv1.code(), 1024);
    assert_eq!(PixelFormat::RgbaEtc1.code(), 1026);
    assert_eq!(PixelFormat::RgbaAstc12X12.code(), 31);
}
