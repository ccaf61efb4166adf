use vstd::prelude::*;

use crate::utils::text::{
    chars_of, contains_str, has_substring, lowercase_str, lowercased, push_str, str_eq, trim_str,
    trimmed,
};

verus! {

/// Debug formatting (`{:?}`) of a list of strings, as `format!` writes it.
pub uninterp spec fn debug_list(items: Seq<Seq<char>>) -> Seq<char>;

/// `format!("{:?}", items)` for a vector of strings: the bracketed, quoted
/// and escaped list that std's `Debug` writes, a function of the strings
/// alone (named `debug_list`).
#[verifier::external_body]
fn debug_strings(items: &Vec<String>) -> (r: String)
    ensures
        r@ == debug_list(items.deep_view()),
{
    format!("{:?}", items)
}

broadcast use vstd::string::group_string_axioms;

/// Game lifecycle events.
#[derive(Debug, Clone, Copy, PartialEq, Eq, Structural)]
pub enum GameEvent {
    Hide,
    Show,
    LowMemory,
    GameInited,
    EngineInited,
    RendererInited,
    Restart,
    Pause,
    Resume,
}

/// Start-up settings of a game.
#[derive(Debug, Clone)]
pub struct GameConfig {
    pub frame_rate: u32,
    pub show_fps: bool,
    pub debug_mode: u32,
    pub render_mode: u8,
}

impl Default for GameConfig {
    /// 60 frames per second, no FPS display, no debug or render mode.
    fn default() -> (r: Self)
        ensures
            r.frame_rate == 60,
            !r.show_fps,
            r.debug_mode == 0,
            r.render_mode == 0,
    {
        GameConfig { frame_rate: 60, show_fps: false, debug_mode: 0, render_mode: 0 }
    }
}

/// What a game package declares about how it boots.
#[derive(Debug, Clone)]
pub struct GameBootstrapContract {
    pub runtime_style: String,
    pub main_entry: Option<String>,
    pub main_entry_source: Option<String>,
    pub game_path: String,
    pub settings_path: Option<String>,
    pub settings_source: Option<String>,
    pub entry_candidates: Vec<String>,
}

/// The canonical name of a runtime style given trimmed and lowercased:
/// aliases map to `legacy-cocos2d-js`, `modern-systemjs` or
/// `bootstrap-only`, an empty style means `bootstrap-only`, any other
/// style stays as it is.
pub open spec fn canonical_style(style: Seq<char>) -> Seq<char> {
    if style.len() == 0 {
        "bootstrap-only"@
    } else if style == "legacy-cocos2d-js"@ || style == "legacy-cocos2d-jsb"@ || style
        == "legacy-cocos2d"@ || style == "cocos2d-js"@ || style == "cocos2d-jsb"@ {
        "legacy-cocos2d-js"@
    } else if style == "modern-systemjs"@ || style == "modern-cocos2d-js"@ || style == "systemjs"@
        || style == "cjs"@ || style == "esm"@ || style == "modern"@ {
        "modern-systemjs"@
    } else if style == "bootstrap-only"@ || style == "bootstrap"@ {
        "bootstrap-only"@
    } else {
        style
    }
}

/// The native boot path for a canonical style; `unknown` for any style
/// the engine does not know.
pub open spec fn native_style(canonical: Seq<char>) -> Seq<char> {
    if canonical == "legacy-cocos2d-js"@ {
        "legacy-cocos2d-js"@
    } else if canonical == "modern-systemjs"@ {
        "modern-systemjs"@
    } else if canonical == "bootstrap-only"@ {
        "bootstrap-only"@
    } else {
        "unknown"@
    }
}

/// The canonical runtime style of a contract.
pub open spec fn contract_style(c: GameBootstrapContract) -> Seq<char> {
    canonical_style(lowercased(trimmed(c.runtime_style@)))
}

/// Whether a contract names a main entry that is not blank.
pub open spec fn names_main_entry(c: GameBootstrapContract) -> bool {
    match c.main_entry {
        Some(e) => trimmed(e@).len() > 0,
        None => false,
    }
}

/// Whether a contract's main entry source can be handed to a script
/// engine: there is one, it is not blank once trimmed, and the trimmed
/// source fits the contract's style.
pub open spec fn entry_ready(c: GameBootstrapContract) -> bool {
    match c.main_entry_source {
        Some(s) => trimmed(s@).len() > 0 && entry_probe(contract_style(c), lowercased(trimmed(s@))) is None,
        None => false,
    }
}

/// The canonical name of a runtime style that is already trimmed and
/// lowercased.
pub fn canonical_runtime_style(style: &str) -> (r: String)
    ensures
        r@ == canonical_style(style@),
{
    let chars = chars_of(style);
    if chars.len() == 0 {
        return String::from_str("bootstrap-only");
    }
    if str_eq(style, "legacy-cocos2d-js") || str_eq(style, "legacy-cocos2d-jsb") || str_eq(
        style,
        "legacy-cocos2d",
    ) || str_eq(style, "cocos2d-js") || str_eq(style, "cocos2d-jsb") {
        return String::from_str("legacy-cocos2d-js");
    }
    if str_eq(style, "modern-systemjs") || str_eq(style, "modern-cocos2d-js") || str_eq(
        style,
        "systemjs",
    ) || str_eq(style, "cjs") || str_eq(style, "esm") || str_eq(style, "modern") {
        return String::from_str("modern-systemjs");
    }
    if str_eq(style, "bootstrap-only") || str_eq(style, "bootstrap") {
        return String::from_str("bootstrap-only");
    }
    style.to_string()
}

/// The native boot path for a canonical style.
pub fn native_style_for(canonical: &str) -> (r: &'static str)
    ensures
        r@ == native_style(canonical@),
{
    if str_eq(canonical, "legacy-cocos2d-js") {
        "legacy-cocos2d-js"
    } else if str_eq(canonical, "modern-systemjs") {
        "modern-systemjs"
    } else if str_eq(canonical, "bootstrap-only") {
        "bootstrap-only"
    } else {
        "unknown"
    }
}

impl GameBootstrapContract {
    /// The native boot path for the contract's runtime style.
    pub fn resolve_style_for_native(&self) -> (r: &'static str)
        ensures
            r@ == native_style(contract_style(*self)),
    {
        let n = self.normalized_runtime_style();
        native_style_for(n.as_str())
    }

    /// The contract's runtime style, trimmed, lowercased and canonical.
    pub fn normalized_runtime_style(&self) -> (r: String)
        ensures
            r@ == contract_style(*self),
    {
        let t = trim_str(self.runtime_style.as_str());
        let lowered = lowercase_str(t);
        canonical_runtime_style(lowered.as_str())
    }

    /// Whether the main entry source can be handed to a script engine: it is
    /// there, not blank once trimmed, and fits the runtime style.
    pub fn entry_ready_to_run(&self) -> (r: bool)
        ensures
            r == entry_ready(*self),
    {
        match &self.main_entry_source {
            Some(src) => {
                let t = trim_str(src.as_str());
                if chars_of(t).len() == 0 {
                    return false;
                }
                let style = self.normalized_runtime_style();
                let reason = probe_bootstrap_entry_inner(style.as_str(), t);
                reason.is_none()
            },
            None => false,
        }
    }

    /// Whether a main entry is named and not blank.
    pub fn has_main_entry(&self) -> (r: bool)
        ensures
            r == names_main_entry(*self),
    {
        match &self.main_entry {
            Some(entry) => {
                let t = trim_str(entry.as_str());
                chars_of(t).len() > 0
            },
            None => false,
        }
    }
}

/// Why a game could not be started from its bootstrap contract.
#[derive(Debug, Clone)]
pub enum GameBootstrapError {
    MissingMainEntry { game_path: String, candidates: Vec<String> },
    RuntimeUnavailable {
        game_path: String,
        runtime_style: String,
        main_entry: String,
        reason: String,
    },
    UnsupportedRuntime { runtime_style: String },
}

/// A [`GameBootstrapError`] with its strings as character sequences.
pub enum BootstrapErrorView {
    MissingMainEntry { game_path: Seq<char>, candidates: Seq<Seq<char>> },
    RuntimeUnavailable {
        game_path: Seq<char>,
        runtime_style: Seq<char>,
        main_entry: Seq<char>,
        reason: Seq<char>,
    },
    UnsupportedRuntime { runtime_style: Seq<char> },
}

impl View for GameBootstrapError {
    type V = BootstrapErrorView;

    open spec fn view(&self) -> BootstrapErrorView {
        match self {
            GameBootstrapError::MissingMainEntry { game_path, candidates } => {
                BootstrapErrorView::MissingMainEntry {
                    game_path: game_path@,
                    candidates: candidates.deep_view(),
                }
            },
            GameBootstrapError::RuntimeUnavailable { game_path, runtime_style, main_entry, reason } => {
                BootstrapErrorView::RuntimeUnavailable {
                    game_path: game_path@,
                    runtime_style: runtime_style@,
                    main_entry: main_entry@,
                    reason: reason@,
                }
            },
            GameBootstrapError::UnsupportedRuntime { runtime_style } => {
                BootstrapErrorView::UnsupportedRuntime { runtime_style: runtime_style@ }
            },
        }
    }
}

/// The stable code of an error kind.
pub open spec fn error_code(e: BootstrapErrorView) -> Seq<char> {
    match e {
        BootstrapErrorView::MissingMainEntry { .. } => "MISSING_MAIN_ENTRY"@,
        BootstrapErrorView::RuntimeUnavailable { .. } => "RUNTIME_UNAVAILABLE"@,
        BootstrapErrorView::UnsupportedRuntime { .. } => "UNSUPPORTED_RUNTIME"@,
    }
}

/// The human-readable description of an error.
pub open spec fn error_message(e: BootstrapErrorView) -> Seq<char> {
    match e {
        BootstrapErrorView::MissingMainEntry { game_path, candidates } => "No usable main entry was selected for game package '"@
            + game_path + "'. candidates="@ + debug_list(candidates),
        BootstrapErrorView::RuntimeUnavailable { game_path, runtime_style, main_entry, reason } => "Runtime not available yet in this branch (style='"@
            + runtime_style + "', main_entry='"@ + main_entry + "', game_path='"@ + game_path
            + "', reason='"@ + reason + "')"@,
        BootstrapErrorView::UnsupportedRuntime { runtime_style } => "Unsupported runtime style '"@
            + runtime_style + "'"@,
    }
}

impl GameBootstrapError {
    pub fn code(&self) -> (r: &'static str)
        ensures
            r@ == error_code(self@),
    {
        match self {
            GameBootstrapError::MissingMainEntry { .. } => "MISSING_MAIN_ENTRY",
            GameBootstrapError::RuntimeUnavailable { .. } => "RUNTIME_UNAVAILABLE",
            GameBootstrapError::UnsupportedRuntime { .. } => "UNSUPPORTED_RUNTIME",
        }
    }

    pub fn message(&self) -> (r: String)
        ensures
            r@ == error_message(self@),
    {
        let mut out = String::new();
        match self {
            GameBootstrapError::MissingMainEntry { game_path, candidates } => {
                push_str(&mut out, "No usable main entry was selected for game package '");
                push_str(&mut out, game_path.as_str());
                push_str(&mut out, "'. candidates=");
                let list = debug_strings(candidates);
                push_str(&mut out, list.as_str());
            },
            GameBootstrapError::RuntimeUnavailable { game_path, runtime_style, main_entry, reason } => {
                push_str(&mut out, "Runtime not available yet in this branch (style='");
                push_str(&mut out, runtime_style.as_str());
                push_str(&mut out, "', main_entry='");
                push_str(&mut out, main_entry.as_str());
                push_str(&mut out, "', game_path='");
                push_str(&mut out, game_path.as_str());
                push_str(&mut out, "', reason='");
                push_str(&mut out, reason.as_str());
                push_str(&mut out, "')");
            },
            GameBootstrapError::UnsupportedRuntime { runtime_style } => {
                push_str(&mut out, "Unsupported runtime style '");
                push_str(&mut out, runtime_style.as_str());
                push_str(&mut out, "'");
            },
        }
        out
    }
}

/// The reason given while the engine cannot run JavaScript entries yet.
pub const REASON_UNIMPLEMENTED_JS_RUNTIME: &'static str =
    "native JS runtime path is not implemented in this branch yet";

/// The reason given when a main entry shows no bootstrap hook.
pub const REASON_JS_BOOTSTRAP_ENTRY_NOT_DETECTED: &'static str =
    "javascript bootstrap entrypoint could not be detected in main entry source";

/// Whether lowercased legacy source defines `window.boot`.
pub open spec fn legacy_entry_found(src: Seq<char>) -> bool {
    has_substring(src, "window.boot"@) || has_substring(src, "window[\"boot\"]"@)
}

/// Whether lowercased modern source shows a SystemJS, `__require` or
/// `__initApp` style bootstrap.
pub open spec fn modern_entry_found(src: Seq<char>) -> bool {
    has_substring(src, "system.register"@) || has_substring(src, "system[\"register\"]"@)
        || has_substring(src, "window.__require"@) || has_substring(src, "__require"@)
        || has_substring(src, "__initapp"@) || has_substring(src, "system.import"@)
        || has_substring(src, "system.warmup"@) || has_substring(src, "first-screen"@)
        || has_substring(src, "firstscreen"@)
}

/// Why lowercased main entry source does not fit a detected style, if it
/// does not.
pub open spec fn entry_probe(style: Seq<char>, lowered: Seq<char>) -> Option<Seq<char>> {
    if style == "legacy-cocos2d-js"@ {
        if legacy_entry_found(lowered) {
            None
        } else {
            Some(REASON_JS_BOOTSTRAP_ENTRY_NOT_DETECTED@ + ": "@ + "legacy style expects window.boot definition"@)
        }
    } else if style == "modern-systemjs"@ {
        if modern_entry_found(lowered) {
            None
        } else {
            Some(REASON_JS_BOOTSTRAP_ENTRY_NOT_DETECTED@ + ": "@
                + "modern style expects System.register, __require, or __initApp-style bootstrap"@)
        }
    } else {
        None
    }
}

/// What the entry probe says of a contract's canonical style and main entry
/// source.
pub open spec fn probe_spec(style: Seq<char>, source: Option<Seq<char>>) -> Option<Seq<char>> {
    match source {
        Some(src) => entry_probe(style, lowercased(src)),
        None => None,
    }
}

/// Why a JavaScript-style contract cannot be started.
pub open spec fn unavailable_reason(c: GameBootstrapContract) -> Seq<char> {
    let source = match c.main_entry_source {
        Some(s) => Some(s@),
        None => None,
    };
    match probe_spec(contract_style(c), source) {
        Some(reason) => reason,
        None => match source {
            None => "main entry source is not available in bootstrap contract"@,
            Some(src) => if trimmed(src).len() == 0 {
                "main entry source is empty"@
            } else {
                REASON_UNIMPLEMENTED_JS_RUNTIME@
            },
        },
    }
}

/// What starting a game from contract `c` gives.
pub open spec fn bootstrap_outcome(c: GameBootstrapContract) -> Result<(), BootstrapErrorView> {
    let native = native_style(contract_style(c));
    if !names_main_entry(c) {
        Err(BootstrapErrorView::MissingMainEntry {
            game_path: c.game_path@,
            candidates: c.entry_candidates.deep_view(),
        })
    } else if native == "legacy-cocos2d-js"@ || native == "modern-systemjs"@ {
        Err(BootstrapErrorView::RuntimeUnavailable {
            game_path: c.game_path@,
            runtime_style: contract_style(c),
            main_entry: match c.main_entry {
                Some(e) => e@,
                None => Seq::empty(),
            },
            reason: unavailable_reason(c),
        })
    } else if native == "bootstrap-only"@ {
        Ok(())
    } else {
        Err(BootstrapErrorView::UnsupportedRuntime { runtime_style: contract_style(c) })
    }
}

/// The characters of an optional string.
pub open spec fn opt_chars(r: Option<String>) -> Option<Seq<char>> {
    match r {
        Some(s) => Some(s@),
        None => None,
    }
}

/// Why lowercased main entry source does not fit the detected style, if it
/// does not.
pub fn entry_probe_reason(style_detected: &str, lowered_source: &str) -> (r: Option<String>)
    ensures
        opt_chars(r) == entry_probe(style_detected@, lowered_source@),
{
    if str_eq(style_detected, "legacy-cocos2d-js") {
        if contains_str(lowered_source, "window.boot") || contains_str(lowered_source, "window[\"boot\"]") {
            return None;
        }
        let mut out = String::new();
        push_str(&mut out, REASON_JS_BOOTSTRAP_ENTRY_NOT_DETECTED);
        push_str(&mut out, ": ");
        push_str(&mut out, "legacy style expects window.boot definition");
        return Some(out);
    }
    if str_eq(style_detected, "modern-systemjs") {
        if contains_str(lowered_source, "system.register") || contains_str(lowered_source, "system[\"register\"]")
            || contains_str(lowered_source, "window.__require") || contains_str(lowered_source, "__require")
            || contains_str(lowered_source, "__initapp") || contains_str(lowered_source, "system.import")
            || contains_str(lowered_source, "system.warmup") || contains_str(lowered_source, "first-screen")
            || contains_str(lowered_source, "firstscreen") {
            return None;
        }
        let mut out = String::new();
        push_str(&mut out, REASON_JS_BOOTSTRAP_ENTRY_NOT_DETECTED);
        push_str(&mut out, ": ");
        push_str(&mut out, "modern style expects System.register, __require, or __initApp-style bootstrap");
        return Some(out);
    }
    None
}

/// Why the main entry source does not fit the detected style, if it does not.
pub fn probe_bootstrap_entry_inner(style_detected: &str, source: &str) -> (r: Option<String>)
    ensures
        opt_chars(r) == entry_probe(style_detected@, lowercased(source@)),
{
    let lowered = lowercase_str(source);
    entry_probe_reason(style_detected, lowered.as_str())
}

/// Why the main entry source, if there is one, does not fit the canonical
/// style; nothing for styles other than the JavaScript ones.
pub fn probe_bootstrap_entry(normalized_style: &str, source: Option<&str>) -> (r: Option<String>)
    ensures
        opt_chars(r) == probe_spec(
            normalized_style@,
            match source {
                Some(s) => Some(s@),
                None => None,
            },
        ),
{
    match source {
        Some(src) => probe_bootstrap_entry_inner(normalized_style, src),
        None => None,
    }
}

/// Why contract `c`, of a JavaScript style, cannot be started.
pub fn runtime_unavailable_reason(c: &GameBootstrapContract) -> (r: String)
    ensures
        r@ == unavailable_reason(*c),
{
    let style = c.normalized_runtime_style();
    let source: Option<&str> = match &c.main_entry_source {
        Some(s) => Some(s.as_str()),
        None => None,
    };
    match probe_bootstrap_entry(style.as_str(), source) {
        Some(reason) => reason,
        None => match source {
            None => String::from_str("main entry source is not available in bootstrap contract"),
            Some(src) => {
                let t = trim_str(src);
                if chars_of(t).len() == 0 {
                    String::from_str("main entry source is empty")
                } else {
                    String::from_str(REASON_UNIMPLEMENTED_JS_RUNTIME)
                }
            },
        },
    }
}

/// Decides whether a game can start from contract `c`: it needs a main
/// entry, and only the bootstrap-only style can start while JavaScript
/// entries cannot run.
pub fn check_bootstrap(c: &GameBootstrapContract) -> (r: Result<(), GameBootstrapError>)
    ensures
        match r {
            Ok(()) => bootstrap_outcome(*c) is Ok,
            Err(e) => bootstrap_outcome(*c) == Err::<(), BootstrapErrorView>(e@),
        },
{
    if !c.has_main_entry() {
        let candidates = clone_strings(&c.entry_candidates);
        return Err(GameBootstrapError::MissingMainEntry { game_path: c.game_path.clone(), candidates });
    }
    let native = c.resolve_style_for_native();
    if str_eq(native, "legacy-cocos2d-js") || str_eq(native, "modern-systemjs") {
        let reason = runtime_unavailable_reason(c);
        let main_entry = match &c.main_entry {
            Some(e) => e.clone(),
            None => String::new(),
        };
        return Err(
            GameBootstrapError::RuntimeUnavailable {
                game_path: c.game_path.clone(),
                runtime_style: c.normalized_runtime_style(),
                main_entry,
                reason,
            },
        );
    }
    if str_eq(native, "bootstrap-only") {
        return Ok(());
    }
    Err(GameBootstrapError::UnsupportedRuntime { runtime_style: c.normalized_runtime_style() })
}

/// A copy of a list of strings.
fn clone_strings(v: &Vec<String>) -> (r: Vec<String>)
    ensures
        r.deep_view() == v.deep_view(),
{
    let mut r: Vec<String> = Vec::new();
    let mut i: usize = 0;
    while i < v.len()
        invariant
            i <= v@.len(),
            r@.len() == i,
            forall|j: int| 0 <= j < i ==> #[trigger] r@[j]@ == v@[j]@,
        decreases v@.len() - i,
    {
        r.push(v[i].clone());
        i = i + 1;
    }
    assert(r.deep_view() =~= v.deep_view());
    r
}

} // verus!
