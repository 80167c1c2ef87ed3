//! The settings of the application.

use crate::text::{
    concat2, has_prefix, lemma_trimmed_same, lower, lowered, same, strip_prefix, trim, trimmed,
};
use vstd::prelude::*;

verus! {

/// How traffic is routed.
#[derive(Debug, Clone, Copy, PartialEq, Eq, Structural)]
pub enum OutboundMode {
    /// By the rules; what none matches goes to the proxy.
    Rule,
    /// All of it to the proxy.
    Global,
    /// All of it directly.
    Direct,
}

impl Default for OutboundMode {
    fn default() -> (r: Self)
        ensures
            r == OutboundMode::Rule,
    {
        OutboundMode::Rule
    }
}

impl OutboundMode {
    pub open spec fn name(self) -> Seq<char> {
        match self {
            OutboundMode::Rule => "rule"@,
            OutboundMode::Global => "global"@,
            OutboundMode::Direct => "direct"@,
        }
    }

    /// What a stored or entered word stands for.
    pub open spec fn of_word(k: Seq<char>) -> Option<OutboundMode> {
        if k == "rule"@ || k == "rules"@ {
            Some(OutboundMode::Rule)
        } else if k == "global"@ {
            Some(OutboundMode::Global)
        } else if k == "direct"@ {
            Some(OutboundMode::Direct)
        } else {
            None
        }
    }

    pub fn as_str(self) -> (r: &'static str)
        ensures
            r@ == self.name(),
    {
        match self {
            OutboundMode::Rule => "rule",
            OutboundMode::Global => "global",
            OutboundMode::Direct => "direct",
        }
    }

    pub fn parse(s: &str) -> (r: Option<Self>)
        ensures
            r == OutboundMode::of_word(lowered(trimmed(s@))),
    {
        let key = lower(trim(s));
        let k = key.as_str();
        if same(k, "rule") || same(k, "rules") {
            Some(OutboundMode::Rule)
        } else if same(k, "global") {
            Some(OutboundMode::Global)
        } else if same(k, "direct") {
            Some(OutboundMode::Direct)
        } else {
            None
        }
    }
}

/// The name of a value, read again, gives the value.
pub proof fn law_outbound_mode_reads_back(m: OutboundMode)
    ensures
        OutboundMode::of_word(lowered(trimmed(m.name()))) == Some(m),
{
    reveal_strlit("rule");
    reveal_strlit("rules");
    reveal_strlit("global");
    reveal_strlit("direct");
    lemma_trimmed_same(m.name());
    assert(lowered(m.name()) =~= m.name());
    assert("global"@[0] == 'g');
    assert("direct"@[0] == 'd');
}

/// How traffic is captured.
#[derive(Debug, Clone, Copy, PartialEq, Eq, Structural)]
pub enum CaptureMode {
    Off,
    System,
    Tun,
}

impl Default for CaptureMode {
    fn default() -> (r: Self)
        ensures
            r == CaptureMode::Off,
    {
        CaptureMode::Off
    }
}

impl CaptureMode {
    pub open spec fn name(self) -> Seq<char> {
        match self {
            CaptureMode::Off => "off"@,
            CaptureMode::System => "system"@,
            CaptureMode::Tun => "tun"@,
        }
    }

    /// What a stored or entered word stands for.
    pub open spec fn of_word(k: Seq<char>) -> Option<CaptureMode> {
        if k == "off"@ {
            Some(CaptureMode::Off)
        } else if k == "system"@ {
            Some(CaptureMode::System)
        } else if k == "tun"@ {
            Some(CaptureMode::Tun)
        } else {
            None
        }
    }

    pub fn as_str(self) -> (r: &'static str)
        ensures
            r@ == self.name(),
    {
        match self {
            CaptureMode::Off => "off",
            CaptureMode::System => "system",
            CaptureMode::Tun => "tun",
        }
    }

    pub fn parse(s: &str) -> (r: Option<Self>)
        ensures
            r == CaptureMode::of_word(lowered(trimmed(s@))),
    {
        let key = lower(trim(s));
        let k = key.as_str();
        if same(k, "off") {
            Some(CaptureMode::Off)
        } else if same(k, "system") {
            Some(CaptureMode::System)
        } else if same(k, "tun") {
            Some(CaptureMode::Tun)
        } else {
            None
        }
    }
}

/// The name of a value, read again, gives the value.
pub proof fn law_capture_mode_reads_back(m: CaptureMode)
    ensures
        CaptureMode::of_word(lowered(trimmed(m.name()))) == Some(m),
{
    reveal_strlit("off");
    reveal_strlit("system");
    reveal_strlit("tun");
    lemma_trimmed_same(m.name());
    assert(lowered(m.name()) =~= m.name());
    assert("off"@[0] == 'o');
    assert("tun"@[0] == 't');
}

/// How the main outbound picks its node.
#[derive(Debug, Clone, Copy, PartialEq, Eq, Structural)]
pub enum AutoSelectMode {
    /// By hand.
    Off,
    /// By the application: it watches connections and probes on demand.
    Smart,
    /// By the core, which measures delays.
    Kernel,
}

impl Default for AutoSelectMode {
    fn default() -> (r: Self)
        ensures
            r == AutoSelectMode::Off,
    {
        AutoSelectMode::Off
    }
}

impl AutoSelectMode {
    pub open spec fn name(self) -> Seq<char> {
        match self {
            AutoSelectMode::Off => "off"@,
            AutoSelectMode::Smart => "smart"@,
            AutoSelectMode::Kernel => "kernel"@,
        }
    }

    /// What a stored or entered word stands for.
    pub open spec fn of_word(k: Seq<char>) -> Option<AutoSelectMode> {
        if k == "off"@ || k == "none"@ || k == "manual"@ || k == "false"@ || k == "0"@ {
            Some(AutoSelectMode::Off)
        } else if k == "smart"@ || k == "app"@ || k == "true"@ || k == "1"@ {
            Some(AutoSelectMode::Smart)
        } else if k == "kernel"@ || k == "urltest"@ || k == "core"@ {
            Some(AutoSelectMode::Kernel)
        } else {
            None
        }
    }

    pub fn as_str(self) -> (r: &'static str)
        ensures
            r@ == self.name(),
    {
        match self {
            AutoSelectMode::Off => "off",
            AutoSelectMode::Smart => "smart",
            AutoSelectMode::Kernel => "kernel",
        }
    }

    pub fn parse(s: &str) -> (r: Option<Self>)
        ensures
            r == AutoSelectMode::of_word(lowered(trimmed(s@))),
    {
        let key = lower(trim(s));
        let k = key.as_str();
        if same(k, "off") || same(k, "none") || same(k, "manual") || same(k, "false") || same(k, "0") {
            Some(AutoSelectMode::Off)
        } else if same(k, "smart") || same(k, "app") || same(k, "true") || same(k, "1") {
            Some(AutoSelectMode::Smart)
        } else if same(k, "kernel") || same(k, "urltest") || same(k, "core") {
            Some(AutoSelectMode::Kernel)
        } else {
            None
        }
    }

    pub fn is_kernel(self) -> (r: bool)
        ensures
            r == (self == AutoSelectMode::Kernel),
    {
        matches!(self, AutoSelectMode::Kernel)
    }

    pub fn is_smart(self) -> (r: bool)
        ensures
            r == (self == AutoSelectMode::Smart),
    {
        matches!(self, AutoSelectMode::Smart)
    }
}

/// The name of a value, read again, gives the value.
pub proof fn law_auto_select_mode_reads_back(m: AutoSelectMode)
    ensures
        AutoSelectMode::of_word(lowered(trimmed(m.name()))) == Some(m),
{
    reveal_strlit("off");
    reveal_strlit("none");
    reveal_strlit("manual");
    reveal_strlit("false");
    reveal_strlit("0");
    reveal_strlit("smart");
    reveal_strlit("app");
    reveal_strlit("true");
    reveal_strlit("1");
    reveal_strlit("kernel");
    reveal_strlit("urltest");
    reveal_strlit("core");
    lemma_trimmed_same(m.name());
    assert(lowered(m.name()) =~= m.name());
    assert("off"@[0] == 'o');
    assert("app"@[0] == 'a');
    assert("smart"@[0] == 's');
    assert("false"@[0] == 'f');
    assert("kernel"@[0] == 'k');
    assert("manual"@[0] == 'm');
}

/// The mark that is drawn in the tray.
#[derive(Debug, Clone, Copy, PartialEq, Eq, Structural)]
pub enum TrayIconStyle {
    Badge,
    Mark,
    PacGhost,
    Buddy,
    Danger,
    Danger2,
    Ghost2,
    Faceid,
}

impl Default for TrayIconStyle {
    fn default() -> (r: Self)
        ensures
            r == TrayIconStyle::Badge,
    {
        TrayIconStyle::Badge
    }
}

impl TrayIconStyle {
    pub open spec fn name(self) -> Seq<char> {
        match self {
            TrayIconStyle::Badge => "badge"@,
            TrayIconStyle::Mark => "mark"@,
            TrayIconStyle::PacGhost => "ghost"@,
            TrayIconStyle::Buddy => "buddy"@,
            TrayIconStyle::Danger => "danger"@,
            TrayIconStyle::Danger2 => "danger2"@,
            TrayIconStyle::Ghost2 => "ghost2"@,
            TrayIconStyle::Faceid => "faceid"@,
        }
    }

    /// What a stored or entered word stands for.
    pub open spec fn of_word(k: Seq<char>) -> Option<TrayIconStyle> {
        if k == "badge"@ || k == "tile"@ || k == "black"@ {
            Some(TrayIconStyle::Badge)
        } else if k == "mark"@ || k == "white"@ || k == "flat"@ || k == "legacy"@ || k == "transparent"@ {
            Some(TrayIconStyle::Mark)
        } else if k == "ghost"@ {
            Some(TrayIconStyle::PacGhost)
        } else if k == "buddy"@ || k == "cool"@ || k == "laoyou"@ || k == "head"@ {
            Some(TrayIconStyle::Buddy)
        } else if k == "danger"@ || k == "warning"@ || k == "alert"@ {
            Some(TrayIconStyle::Danger)
        } else if k == "danger2"@ {
            Some(TrayIconStyle::Danger2)
        } else if k == "ghost2"@ {
            Some(TrayIconStyle::Ghost2)
        } else if k == "faceid"@ || k == "face"@ || k == "smile"@ {
            Some(TrayIconStyle::Faceid)
        } else {
            None
        }
    }

    pub fn as_str(self) -> (r: &'static str)
        ensures
            r@ == self.name(),
    {
        match self {
            TrayIconStyle::Badge => "badge",
            TrayIconStyle::Mark => "mark",
            TrayIconStyle::PacGhost => "ghost",
            TrayIconStyle::Buddy => "buddy",
            TrayIconStyle::Danger => "danger",
            TrayIconStyle::Danger2 => "danger2",
            TrayIconStyle::Ghost2 => "ghost2",
            TrayIconStyle::Faceid => "faceid",
        }
    }

    pub fn parse(s: &str) -> (r: Option<Self>)
        ensures
            r == TrayIconStyle::of_word(lowered(trimmed(s@))),
    {
        let key = lower(trim(s));
        let k = key.as_str();
        if same(k, "badge") || same(k, "tile") || same(k, "black") {
            Some(TrayIconStyle::Badge)
        } else if same(k, "mark") || same(k, "white") || same(k, "flat") || same(k, "legacy") || same(k, "transparent") {
            Some(TrayIconStyle::Mark)
        } else if same(k, "ghost") {
            Some(TrayIconStyle::PacGhost)
        } else if same(k, "buddy") || same(k, "cool") || same(k, "laoyou") || same(k, "head") {
            Some(TrayIconStyle::Buddy)
        } else if same(k, "danger") || same(k, "warning") || same(k, "alert") {
            Some(TrayIconStyle::Danger)
        } else if same(k, "danger2") {
            Some(TrayIconStyle::Danger2)
        } else if same(k, "ghost2") {
            Some(TrayIconStyle::Ghost2)
        } else if same(k, "faceid") || same(k, "face") || same(k, "smile") {
            Some(TrayIconStyle::Faceid)
        } else {
            None
        }
    }
}

/// A word of that length that begins with the two letters.
spec fn begins_with(w: Seq<char>, len: int, first: char, second: char) -> bool {
    w.len() == len && w[0] == first && w[1] == second
}

/// The words for the styles differ in their lengths or in their first two letters.
proof fn lemma_style_words()
    ensures
        begins_with("badge"@, 5, 'b', 'a'),
        begins_with("tile"@, 4, 't', 'i'),
        begins_with("black"@, 5, 'b', 'l'),
        begins_with("mark"@, 4, 'm', 'a'),
        begins_with("white"@, 5, 'w', 'h'),
        begins_with("flat"@, 4, 'f', 'l'),
        begins_with("legacy"@, 6, 'l', 'e'),
        begins_with("transparent"@, 11, 't', 'r'),
        begins_with("ghost"@, 5, 'g', 'h'),
        begins_with("buddy"@, 5, 'b', 'u'),
        begins_with("cool"@, 4, 'c', 'o'),
        begins_with("laoyou"@, 6, 'l', 'a'),
        begins_with("head"@, 4, 'h', 'e'),
        begins_with("danger"@, 6, 'd', 'a'),
        begins_with("warning"@, 7, 'w', 'a'),
        begins_with("alert"@, 5, 'a', 'l'),
        begins_with("danger2"@, 7, 'd', 'a'),
        begins_with("ghost2"@, 6, 'g', 'h'),
        begins_with("faceid"@, 6, 'f', 'a'),
        begins_with("face"@, 4, 'f', 'a'),
        begins_with("smile"@, 5, 's', 'm'),
{
    reveal_strlit("badge");
    reveal_strlit("tile");
    reveal_strlit("black");
    reveal_strlit("mark");
    reveal_strlit("white");
    reveal_strlit("flat");
    reveal_strlit("legacy");
    reveal_strlit("transparent");
    reveal_strlit("ghost");
    reveal_strlit("buddy");
    reveal_strlit("cool");
    reveal_strlit("laoyou");
    reveal_strlit("head");
    reveal_strlit("danger");
    reveal_strlit("warning");
    reveal_strlit("alert");
    reveal_strlit("danger2");
    reveal_strlit("ghost2");
    reveal_strlit("faceid");
    reveal_strlit("face");
    reveal_strlit("smile");
}

/// The names of the styles are in small letters, with no blanks around them.
proof fn lemma_style_name_is_plain(m: TrayIconStyle)
    ensures
        lowered(trimmed(m.name())) == m.name(),
{
    reveal_strlit("badge");
    reveal_strlit("mark");
    reveal_strlit("ghost");
    reveal_strlit("buddy");
    reveal_strlit("danger");
    reveal_strlit("danger2");
    reveal_strlit("ghost2");
    reveal_strlit("faceid");
    lemma_trimmed_same(m.name());
    assert(lowered(m.name()) =~= m.name());
}

/// The name of a value, read again, gives the value.
pub proof fn law_tray_icon_style_reads_back(m: TrayIconStyle)
    ensures
        TrayIconStyle::of_word(lowered(trimmed(m.name()))) == Some(m),
{
    lemma_style_words();
    lemma_style_name_is_plain(m);
}

/// A listener beside the main one.
#[derive(Debug, Clone, PartialEq, Eq)]
pub struct ExtraInbound {
    pub id: String,
    /// `mixed` or `http`.
    pub kind: String,
    pub port: u16,
    pub allow_lan: bool,
}

pub fn default_extra_inbound_kind() -> (r: String)
    ensures
        r@ == "mixed"@,
{
    "mixed".to_owned()
}

/// The core that serves the nodes of a protocol.
#[derive(Debug, Clone, PartialEq, Eq)]
pub struct ProtocolCoreItem {
    pub protocol: String,
    pub core: String,
}

pub fn default_runtime_source() -> (r: String)
    ensures
        r@ == "generated"@,
{
    "generated".to_owned()
}

pub fn default_core_type() -> (r: String)
    ensures
        r@ == "singbox"@,
{
    "singbox".to_owned()
}

pub fn default_probe_url() -> (r: String)
    ensures
        r@ == "https://www.gstatic.com/generate_204"@,
{
    "https://www.gstatic.com/generate_204".to_owned()
}

pub fn default_tun_stack() -> (r: String)
    ensures
        r@ == "mixed"@,
{
    "mixed".to_owned()
}

pub fn default_route_final() -> (r: String)
    ensures
        r@ == "proxy"@,
{
    "proxy".to_owned()
}

pub fn default_locale() -> (r: String)
    ensures
        r@ == "zh"@,
{
    "zh".to_owned()
}

pub fn default_theme() -> (r: String)
    ensures
        r@ == "day"@,
{
    "day".to_owned()
}

pub fn default_accent() -> (r: String)
    ensures
        r@ == "green"@,
{
    "green".to_owned()
}

pub fn default_glow_color() -> (r: String)
    ensures
        r@ == "accent"@,
{
    "accent".to_owned()
}

pub fn default_home_background() -> (r: String)
    ensures
        r@ == "starfield"@,
{
    "starfield".to_owned()
}

pub fn default_hero_style() -> (r: String)
    ensures
        r@ == "smiley"@,
{
    "smiley".to_owned()
}

#[derive(Debug, Clone)]
pub struct AppSettings {
    /// The port of the main listener.
    pub mixed_port: u16,
    /// The main listener accepts connections from the network.
    pub allow_lan: bool,
    /// The port of the core's controller.
    pub api_port: u16,
    pub extra_inbounds: Vec<ExtraInbound>,
    pub current_node_id: Option<String>,
    /// The secret of the controller that the last configuration was written with.
    pub clash_api_secret: Option<String>,
    /// The controller asks for its secret.
    pub api_secret_enabled: bool,
    /// The address that latency tests fetch.
    pub probe_url: String,
    /// More than one subscription can be enabled.
    pub mix_mode: bool,
    pub tun_enabled: bool,
    pub capture_mode: CaptureMode,
    /// `system`, `gvisor` or `mixed`.
    pub tun_stack: String,
    pub tun_ipv6_enabled: bool,
    /// QUIC is rejected, so that browsers fall back to TCP.
    pub block_quic: bool,
    /// Addresses of the local network are reached directly.
    pub bypass_lan: bool,
    pub outbound_mode: OutboundMode,
    /// Where traffic goes that no rule matches: `proxy`, `direct` or `block`.
    pub route_final: String,
    pub close_to_tray: bool,
    pub launch_at_login: bool,
    pub silent_start: bool,
    pub auto_start_proxy: bool,
    /// Selecting a node by hand closes all connections.
    pub close_connections_on_switch: bool,
    pub locale: String,
    pub theme: String,
    pub accent: String,
    pub glow_color: String,
    pub home_background: String,
    pub hero_style: String,
    pub glass_frost: bool,
    pub tray_icon: TrayIconStyle,
    /// Closing to the tray frees the window.
    pub unload_ui_on_tray: bool,
    pub auto_select: AutoSelectMode,
    pub find_process: bool,
    /// The switch of older stores for what `auto_select` says now.
    pub smart_switch: bool,
    /// `generated`, or `singbox:` and the id of a profile.
    pub runtime_source: String,
    /// `singbox`, `xray` or `mihomo`.
    pub core_type: String,
    /// Nodes of some protocols are served by a second core.
    pub multi_core_enabled: bool,
    /// Which core serves which protocol, where a second one runs.
    pub protocol_cores: Vec<ProtocolCoreItem>,
    /// The first port of the second core.
    pub sidecar_port: u16,
}

impl Default for AppSettings {
    fn default() -> (r: Self)
        ensures
            r.mixed_port == 2080,
            !r.allow_lan,
            r.api_port == 19090,
            r.extra_inbounds@.len() == 0,
            r.current_node_id is None,
            r.clash_api_secret is None,
            !r.api_secret_enabled,
            r.probe_url@ == "https://www.gstatic.com/generate_204"@,
            !r.mix_mode,
            !r.tun_enabled,
            r.capture_mode == CaptureMode::Off,
            r.tun_stack@ == "mixed"@,
            !r.tun_ipv6_enabled,
            !r.block_quic,
            r.bypass_lan,
            r.outbound_mode == OutboundMode::Rule,
            r.route_final@ == "proxy"@,
            r.close_to_tray,
            !r.launch_at_login,
            !r.silent_start,
            !r.auto_start_proxy,
            !r.close_connections_on_switch,
            r.locale@ == "zh"@,
            r.theme@ == "day"@,
            r.accent@ == "green"@,
            r.glow_color@ == "accent"@,
            r.home_background@ == "starfield"@,
            r.hero_style@ == "smiley"@,
            r.glass_frost,
            r.tray_icon == TrayIconStyle::Badge,
            r.unload_ui_on_tray,
            r.auto_select == AutoSelectMode::Off,
            r.find_process,
            !r.smart_switch,
            r.runtime_source@ == "generated"@,
            r.core_type@ == "singbox"@,
            !r.multi_core_enabled,
            r.protocol_cores@.len() == 0,
            r.sidecar_port == 20890,
    {
        AppSettings {
            mixed_port: 2080,
            allow_lan: false,
            api_port: 19090,
            extra_inbounds: Vec::new(),
            current_node_id: None,
            clash_api_secret: None,
            api_secret_enabled: false,
            probe_url: default_probe_url(),
            mix_mode: false,
            tun_enabled: false,
            capture_mode: CaptureMode::Off,
            tun_stack: default_tun_stack(),
            tun_ipv6_enabled: false,
            block_quic: false,
            bypass_lan: true,
            outbound_mode: OutboundMode::Rule,
            route_final: default_route_final(),
            close_to_tray: true,
            launch_at_login: false,
            silent_start: false,
            auto_start_proxy: false,
            close_connections_on_switch: false,
            locale: default_locale(),
            theme: default_theme(),
            accent: default_accent(),
            glow_color: default_glow_color(),
            home_background: default_home_background(),
            hero_style: default_hero_style(),
            glass_frost: true,
            tray_icon: TrayIconStyle::Badge,
            unload_ui_on_tray: true,
            auto_select: AutoSelectMode::Off,
            find_process: true,
            smart_switch: false,
            runtime_source: default_runtime_source(),
            core_type: default_core_type(),
            multi_core_enabled: false,
            protocol_cores: Vec::new(),
            sidecar_port: 20890,
        }
    }
}

/// What the core is started with. A profile of one's own never overwrites the
/// generated configuration.
#[derive(Debug, Clone, PartialEq, Eq)]
pub enum RuntimeSource {
    Generated,
    Singbox { id: String },
}

pub enum RuntimeModel {
    Generated,
    Singbox(Seq<char>),
}

impl View for RuntimeSource {
    type V = RuntimeModel;

    open spec fn view(&self) -> RuntimeModel {
        match self {
            RuntimeSource::Generated => RuntimeModel::Generated,
            RuntimeSource::Singbox { id } => RuntimeModel::Singbox(id@),
        }
    }
}

/// What a stored value stands for: `singbox:` and the id of a profile, or else the
/// generated configuration.
pub open spec fn runtime_of(raw: Seq<char>) -> RuntimeModel {
    let t = trimmed(raw);
    let id = trimmed(t.skip("singbox:"@.len() as int));
    if has_prefix(t, "singbox:"@) && id.len() > 0 {
        RuntimeModel::Singbox(id)
    } else {
        RuntimeModel::Generated
    }
}

/// The value that is stored.
pub open spec fn runtime_stored(m: RuntimeModel) -> Seq<char> {
    match m {
        RuntimeModel::Generated => "generated"@,
        RuntimeModel::Singbox(id) => "singbox:"@ + id,
    }
}

impl RuntimeSource {
    pub fn parse(raw: &str) -> (r: Self)
        ensures
            r@ == runtime_of(raw@),
    {
        let raw = trim(raw);
        if let Some(rest) = strip_prefix(raw, "singbox:") {
            let id = trim(rest);
            if !id.is_empty() {
                return RuntimeSource::Singbox { id: id.to_owned() };
            }
        }
        RuntimeSource::Generated
    }

    pub fn as_store_value(&self) -> (r: String)
        ensures
            r@ == runtime_stored(self@),
    {
        match self {
            RuntimeSource::Generated => "generated".to_owned(),
            RuntimeSource::Singbox { id } => concat2("singbox:", id.as_str()),
        }
    }

    pub fn is_custom(&self) -> (r: bool)
        ensures
            r == (self@ is Singbox),
    {
        matches!(self, RuntimeSource::Singbox { .. })
    }

    pub fn singbox_id(&self) -> (r: Option<&str>)
        ensures
            match r {
                Some(id) => self@ == RuntimeModel::Singbox(id@),
                None => self@ is Generated,
            },
    {
        match self {
            RuntimeSource::Singbox { id } => Some(id.as_str()),
            RuntimeSource::Generated => None,
        }
    }
}

/// What was stored is read back, where the id of a profile is not blank and has no
/// white space around it.
pub proof fn law_runtime_source_reads_back(m: RuntimeModel)
    requires
        m matches RuntimeModel::Singbox(id) ==> id.len() > 0 && trimmed(id) == id,
    ensures
        runtime_of(runtime_stored(m)) == m,
{
    reveal_strlit("generated");
    reveal_strlit("singbox:");
    match m {
        RuntimeModel::Generated => {
            lemma_trimmed_same("generated"@);
            assert(!has_prefix("generated"@, "singbox:"@)) by {
                if has_prefix("generated"@, "singbox:"@) {
                    assert("generated"@.subrange(0, 8)[0] == 'g');
                    assert("singbox:"@[0] == 's');
                }
            }
        },
        RuntimeModel::Singbox(id) => {
            let s = "singbox:"@ + id;
            crate::text::lemma_trimmed_twice(id);
            assert(s.last() == id.last());
            lemma_trimmed_same(s);
            assert(s.subrange(0, 8) =~= "singbox:"@);
            assert(s.skip(8) =~= id);
        },
    }
}

/// Where traffic goes that no rule matches.
pub open spec fn final_target(s: Seq<char>) -> Seq<char> {
    let k = lowered(s);
    if k == "direct"@ {
        "direct"@
    } else if k == "block"@ {
        "block"@
    } else {
        "proxy"@
    }
}

impl AppSettings {
    fn set_capture(&mut self, mode: CaptureMode, tun: bool)
        ensures
            *final(self) == (AppSettings { capture_mode: mode, tun_enabled: tun, ..*old(self) }),
    {
        self.capture_mode = mode;
        self.tun_enabled = tun;
    }

    fn set_selection(&mut self, mode: AutoSelectMode, smart: bool)
        ensures
            *final(self) == (AppSettings { auto_select: mode, smart_switch: smart, ..*old(self) }),
    {
        self.auto_select = mode;
        self.smart_switch = smart;
    }

    pub fn runtime_source(&self) -> (r: RuntimeSource)
        ensures
            r@ == runtime_of(self.runtime_source@),
    {
        RuntimeSource::parse(self.runtime_source.as_str())
    }

    pub fn set_runtime_source(&mut self, source: RuntimeSource)
        ensures
            *final(self) == (AppSettings {
                runtime_source: final(self).runtime_source,
                ..*old(self)
            }),
            final(self).runtime_source@ == runtime_stored(source@),
    {
        self.runtime_source = source.as_store_value();
    }

    /// A store that only knows the TUN switch gets the capture mode that it stands
    /// for; from then on the switch follows the mode.
    pub fn migrate_capture_mode(&mut self)
        ensures
            *final(self) == capture_migrated(*old(self)),
    {
        let mode = if self.tun_enabled && self.capture_mode == CaptureMode::Off {
            CaptureMode::Tun
        } else {
            self.capture_mode
        };
        self.set_capture(mode, mode == CaptureMode::Tun);
    }

    /// The switch of an older store turns the smart selection on; from then on it
    /// follows the mode.
    pub fn migrate_auto_select(&mut self)
        ensures
            *final(self) == select_migrated(*old(self)),
    {
        let mode = if self.auto_select == AutoSelectMode::Off && self.smart_switch {
            AutoSelectMode::Smart
        } else {
            self.auto_select
        };
        self.set_selection(mode, mode.is_smart());
    }

    /// A store that holds a secret keeps asking for it.
    pub fn migrate_api_secret_enabled(&mut self)
        ensures
            *final(self) == (AppSettings {
                api_secret_enabled: final(self).api_secret_enabled,
                ..*old(self)
            }),
            final(self).api_secret_enabled == (old(self).api_secret_enabled || has_secret(
                old(self).clash_api_secret,
            )),
    {
        let kept = match &self.clash_api_secret {
            Some(s) => !trim(s.as_str()).is_empty(),
            None => false,
        };
        if !self.api_secret_enabled && kept {
            self.api_secret_enabled = true;
        }
    }

    /// Where traffic goes that no rule matches, as one of `proxy`, `direct` and
    /// `block`.
    pub fn normalized_route_final(&self) -> (r: &'static str)
        ensures
            r@ == final_target(self.route_final@),
    {
        let k = lower(self.route_final.as_str());
        if same(k.as_str(), "direct") {
            "direct"
        } else if same(k.as_str(), "block") {
            "block"
        } else {
            "proxy"
        }
    }
}

/// The settings with the capture mode that an older store stands for.
pub open spec fn capture_migrated(s: AppSettings) -> AppSettings {
    let mode = if s.tun_enabled && s.capture_mode == CaptureMode::Off {
        CaptureMode::Tun
    } else {
        s.capture_mode
    };
    AppSettings { capture_mode: mode, tun_enabled: mode == CaptureMode::Tun, ..s }
}

/// The settings with the selection that an older store stands for.
pub open spec fn select_migrated(s: AppSettings) -> AppSettings {
    let mode = if s.auto_select == AutoSelectMode::Off && s.smart_switch {
        AutoSelectMode::Smart
    } else {
        s.auto_select
    };
    AppSettings { auto_select: mode, smart_switch: mode == AutoSelectMode::Smart, ..s }
}

/// Migrating the capture mode again changes neither the mode nor the switch.
pub proof fn law_capture_migration_settles(s: AppSettings)
    ensures
        capture_migrated(s).tun_enabled == (capture_migrated(s).capture_mode == CaptureMode::Tun),
        capture_migrated(capture_migrated(s)).capture_mode == capture_migrated(s).capture_mode,
        capture_migrated(capture_migrated(s)).tun_enabled == capture_migrated(s).tun_enabled,
{
}

/// Migrating the selection again changes neither the mode nor the switch.
pub proof fn law_select_migration_settles(s: AppSettings)
    ensures
        select_migrated(s).smart_switch == (select_migrated(s).auto_select
            == AutoSelectMode::Smart),
        select_migrated(select_migrated(s)).auto_select == select_migrated(s).auto_select,
        select_migrated(select_migrated(s)).smart_switch == select_migrated(s).smart_switch,
{
}

/// A secret that is not blank.
pub open spec fn has_secret(s: Option<String>) -> bool {
    s is Some && trimmed(s->0@).len() > 0
}

} // verus!
