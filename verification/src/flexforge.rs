//! The mining panel of the dashboard: the configuration that the user edits
//! by key and value, the statistics on display, and the state of the
//! statistics stream.

use crate::number::{number_of, parse_number};
use crate::text::{decimal, join, render_decimal, str_eq};
use vstd::prelude::*;
use vstd::string::*;

verus! {

/// Configuration exposed through the panel.
#[derive(Debug)]
pub struct MiningUiConfig {
    /// Mining enabled.
    pub mining_enabled: bool,
    /// Pool address.
    pub pool_address: String,
    /// Wallet address.
    pub wallet_address: String,
    /// Worker name.
    pub worker_name: String,
    /// CPU mining enabled.
    pub cpu_mining: bool,
    /// GPU mining enabled.
    pub gpu_mining: bool,
    /// Maximum number of CPU threads.
    pub cpu_threads: u8,
    /// GPU intensity in percent.
    pub gpu_intensity: u8,
    /// Temperature limit in degrees Celsius.
    pub temp_limit: u8,
}

/// The configuration as plain values.
pub struct UiConfigView {
    pub mining_enabled: bool,
    pub pool_address: Seq<char>,
    pub wallet_address: Seq<char>,
    pub worker_name: Seq<char>,
    pub cpu_mining: bool,
    pub gpu_mining: bool,
    pub cpu_threads: u8,
    pub gpu_intensity: u8,
    pub temp_limit: u8,
}

impl View for MiningUiConfig {
    type V = UiConfigView;

    open spec fn view(&self) -> UiConfigView {
        UiConfigView {
            mining_enabled: self.mining_enabled,
            pool_address: self.pool_address@,
            wallet_address: self.wallet_address@,
            worker_name: self.worker_name@,
            cpu_mining: self.cpu_mining,
            gpu_mining: self.gpu_mining,
            cpu_threads: self.cpu_threads,
            gpu_intensity: self.gpu_intensity,
            temp_limit: self.temp_limit,
        }
    }
}

/// The configuration of a new panel: mining off, GPU mining preferred.
pub open spec fn default_ui_config() -> UiConfigView {
    UiConfigView {
        mining_enabled: false,
        pool_address: Seq::empty(),
        wallet_address: Seq::empty(),
        worker_name: "essentia-worker"@,
        cpu_mining: false,
        gpu_mining: true,
        cpu_threads: 2,
        gpu_intensity: 70,
        temp_limit: 80,
    }
}

impl Clone for MiningUiConfig {
    fn clone(&self) -> (r: Self)
        ensures
            r == *self,
    {
        MiningUiConfig {
            mining_enabled: self.mining_enabled,
            pool_address: self.pool_address.clone(),
            wallet_address: self.wallet_address.clone(),
            worker_name: self.worker_name.clone(),
            cpu_mining: self.cpu_mining,
            gpu_mining: self.gpu_mining,
            cpu_threads: self.cpu_threads,
            gpu_intensity: self.gpu_intensity,
            temp_limit: self.temp_limit,
        }
    }
}

impl Default for MiningUiConfig {
    fn default() -> (r: Self)
        ensures
            r@ == default_ui_config(),
    {
        MiningUiConfig {
            mining_enabled: false,
            pool_address: String::new(),
            wallet_address: String::new(),
            worker_name: String::from_str("essentia-worker"),
            cpu_mining: false,
            gpu_mining: true,
            cpu_threads: 2,
            gpu_intensity: 70,
            temp_limit: 80,
        }
    }
}

/// Statistics for display on the dashboard.
#[derive(Debug, Clone, Copy, PartialEq, Eq, Structural)]
pub struct MiningDisplayStats {
    /// Current hash rate in hashes per second.
    pub hashrate: u64,
    /// Accepted shares.
    pub shares_accepted: u64,
    /// Rejected shares.
    pub shares_rejected: u64,
    /// Current difficulty.
    pub difficulty: u64,
    /// Estimated earnings in satoshis per day.
    pub earnings_per_day: u64,
    /// GPU temperature in degrees Celsius.
    pub gpu_temp: u8,
    /// CPU usage in percent.
    pub cpu_usage: u8,
}

impl Default for MiningDisplayStats {
    fn default() -> (r: Self)
        ensures
            r == (MiningDisplayStats {
                hashrate: 0,
                shares_accepted: 0,
                shares_rejected: 0,
                difficulty: 0,
                earnings_per_day: 0,
                gpu_temp: 0,
                cpu_usage: 0,
            }),
    {
        MiningDisplayStats {
            hashrate: 0,
            shares_accepted: 0,
            shares_rejected: 0,
            difficulty: 0,
            earnings_per_day: 0,
            gpu_temp: 0,
            cpu_usage: 0,
        }
    }
}

/// What a panel can do.
#[derive(Debug, Clone, Copy, PartialEq, Eq, Structural)]
pub enum PanelCapability {
    /// The panel has a configuration form.
    Configuration,
    /// The panel streams frames.
    Streaming,
    /// The panel shows a dashboard.
    Dashboard,
}

/// How a panel presents itself.
#[derive(Debug)]
pub struct PanelInfo {
    /// Panel id.
    pub id: String,
    /// Display name.
    pub name: String,
    /// Icon glyph.
    pub icon: Option<String>,
    /// Priority within the panel's category.
    pub priority: u32,
    /// What the panel can do.
    pub capabilities: Vec<PanelCapability>,
}

/// The kind of a field of the configuration form.
#[derive(Debug, Clone, Copy, PartialEq, Eq, Structural)]
pub enum FieldKind {
    /// A switch, on or off by default.
    Toggle { on: bool },
    /// A line of text.
    Text,
    /// A number with its default and its bounds.
    Number { default: u8, min: u8, max: u8 },
}

/// One field of the configuration form.
#[derive(Debug, Clone, Copy)]
pub struct SchemaField {
    /// The key under which the field is changed.
    pub key: &'static str,
    /// The label of the field.
    pub label: &'static str,
    /// The kind of the field.
    pub kind: FieldKind,
    /// The description of the field.
    pub description: &'static str,
    /// The group under which the field is shown.
    pub group: &'static str,
}

// ---------------------------------------------------------------------------
// Values by key
// ---------------------------------------------------------------------------

/// The error that a change of `key` to `value` meets, if any.
pub open spec fn change_error(key: Seq<char>, value: Seq<char>) -> Option<Seq<char>> {
    if key == "mining_enabled"@ || key == "pool_address"@ || key == "wallet_address"@ || key
        == "worker_name"@ || key == "cpu_mining"@ || key == "gpu_mining"@ {
        None
    } else if key == "cpu_threads"@ {
        if number_of(value) is Some {
            None
        } else {
            Some("Invalid thread count"@)
        }
    } else if key == "gpu_intensity"@ {
        if number_of(value) is Some {
            None
        } else {
            Some("Invalid intensity"@)
        }
    } else if key == "temp_limit"@ {
        if number_of(value) is Some {
            None
        } else {
            Some("Invalid temperature"@)
        }
    } else {
        Some("Unknown configuration key: "@ + key)
    }
}

/// The configuration after a change of `key` to `value`; unchanged when the
/// change meets an error.
pub open spec fn changed(config: UiConfigView, key: Seq<char>, value: Seq<char>) -> UiConfigView {
    if key == "mining_enabled"@ {
        UiConfigView { mining_enabled: value == "true"@, ..config }
    } else if key == "pool_address"@ {
        UiConfigView { pool_address: value, ..config }
    } else if key == "wallet_address"@ {
        UiConfigView { wallet_address: value, ..config }
    } else if key == "worker_name"@ {
        UiConfigView { worker_name: value, ..config }
    } else if key == "cpu_mining"@ {
        UiConfigView { cpu_mining: value == "true"@, ..config }
    } else if key == "gpu_mining"@ {
        UiConfigView { gpu_mining: value == "true"@, ..config }
    } else if key == "cpu_threads"@ && number_of(value) is Some {
        UiConfigView { cpu_threads: number_of(value)->0, ..config }
    } else if key == "gpu_intensity"@ && number_of(value) is Some {
        UiConfigView { gpu_intensity: number_of(value)->0, ..config }
    } else if key == "temp_limit"@ && number_of(value) is Some {
        UiConfigView { temp_limit: number_of(value)->0, ..config }
    } else {
        config
    }
}

/// The number of leading changes that meet no error.
pub open spec fn accepted_changes(changes: Seq<(String, String)>) -> nat
    decreases changes.len(),
{
    if changes.len() == 0 || change_error(changes[0].0@, changes[0].1@) is Some {
        0
    } else {
        1 + accepted_changes(changes.drop_first())
    }
}

/// The configuration after the first `count` changes, in order.
pub open spec fn changed_by(config: UiConfigView, changes: Seq<(String, String)>, count: nat) -> UiConfigView
    decreases count,
{
    if count == 0 || changes.len() == 0 {
        config
    } else {
        changed(
            changed_by(config, changes, (count - 1) as nat),
            changes[count - 1].0@,
            changes[count - 1].1@,
        )
    }
}

/// The text of a switch.
pub open spec fn bool_text(b: bool) -> Seq<char> {
    if b {
        "true"@
    } else {
        "false"@
    }
}

/// The configuration as pairs of key and value, in the order of the form.
pub open spec fn config_pairs(config: UiConfigView) -> Seq<(Seq<char>, Seq<char>)> {
    seq![
        ("mining_enabled"@, bool_text(config.mining_enabled)),
        ("pool_address"@, config.pool_address),
        ("wallet_address"@, config.wallet_address),
        ("worker_name"@, config.worker_name),
        ("cpu_mining"@, bool_text(config.cpu_mining)),
        ("gpu_mining"@, bool_text(config.gpu_mining)),
        ("cpu_threads"@, decimal(config.cpu_threads as nat)),
        ("gpu_intensity"@, decimal(config.gpu_intensity as nat)),
        ("temp_limit"@, decimal(config.temp_limit as nat)),
    ]
}

proof fn lemma_accepted_changes(changes: Seq<(String, String)>, k: int)
    requires
        0 <= k <= changes.len(),
        forall|j: int| 0 <= j < k ==> change_error((#[trigger] changes[j]).0@, changes[j].1@) is None,
        k == changes.len() || change_error(changes[k].0@, changes[k].1@) is Some,
    ensures
        accepted_changes(changes) == k,
    decreases k,
{
    if k > 0 {
        assert(change_error(changes[0].0@, changes[0].1@) is None);
        assert forall|j: int| 0 <= j < k - 1 implies change_error(
            (#[trigger] changes.drop_first()[j]).0@,
            changes.drop_first()[j].1@,
        ) is None by {
            assert(change_error(changes[j + 1].0@, changes[j + 1].1@) is None);
        }
        lemma_accepted_changes(changes.drop_first(), k - 1);
    }
}

fn bool_string(b: bool) -> (r: String)
    ensures
        r@ == bool_text(b),
{
    if b {
        String::from_str("true")
    } else {
        String::from_str("false")
    }
}


/// The keys of the configuration form, in its order.
pub open spec fn schema_keys() -> Seq<Seq<char>> {
    seq![
        "mining_enabled"@,
        "pool_address"@,
        "wallet_address"@,
        "worker_name"@,
        "cpu_mining"@,
        "gpu_mining"@,
        "cpu_threads"@,
        "gpu_intensity"@,
        "temp_limit"@,
    ]
}

/// The kinds of the fields of the configuration form, in its order.
pub open spec fn schema_kinds() -> Seq<FieldKind> {
    seq![
        FieldKind::Toggle { on: false },
        FieldKind::Text,
        FieldKind::Text,
        FieldKind::Text,
        FieldKind::Toggle { on: false },
        FieldKind::Toggle { on: true },
        FieldKind::Number { default: 2, min: 1, max: 32 },
        FieldKind::Number { default: 70, min: 10, max: 100 },
        FieldKind::Number { default: 80, min: 50, max: 95 },
    ]
}

/// The labels of the fields of the configuration form, in its order.
pub open spec fn schema_labels() -> Seq<Seq<char>> {
    seq![
        "Enable Mining"@,
        "Pool Address"@,
        "Wallet Address"@,
        "Worker Name"@,
        "CPU Mining"@,
        "GPU Mining"@,
        "CPU Threads"@,
        "GPU Intensity (%)"@,
        "Temperature Limit (\u{B0}C)"@,
    ]
}

/// The descriptions of the fields of the configuration form, in its order.
pub open spec fn schema_descriptions() -> Seq<Seq<char>> {
    seq![
        "Enable cryptocurrency mining"@,
        "Mining pool stratum address"@,
        "Your wallet address for payouts"@,
        "Identifier for this mining worker"@,
        "Use CPU for mining"@,
        "Use GPU for mining"@,
        "Number of CPU threads for mining"@,
        "GPU mining intensity"@,
        "Maximum allowed GPU temperature"@,
    ]
}

/// The groups of the fields of the configuration form, in its order.
pub open spec fn schema_groups() -> Seq<Seq<char>> {
    seq![
        "General"@,
        "Pool"@,
        "Pool"@,
        "Pool"@,
        "Hardware"@,
        "Hardware"@,
        "Hardware"@,
        "Hardware"@,
        "Safety"@,
    ]
}

/// The mining panel.
#[derive(Debug)]
pub struct MiningPluginFlexForge {
    config: MiningUiConfig,
    stream_active: bool,
    stream_id: Option<u64>,
    next_id: u64,
    stats: MiningDisplayStats,
}

impl MiningPluginFlexForge {
    /// The configuration.
    pub closed spec fn ui_config(&self) -> UiConfigView {
        self.config@
    }

    /// Whether the statistics stream is active.
    pub closed spec fn streaming(&self) -> bool {
        self.stream_active
    }

    /// The id of the active stream.
    pub closed spec fn stream(&self) -> Option<u64> {
        self.stream_id
    }

    /// The id that the next stream gets.
    pub closed spec fn next_stream(&self) -> u64 {
        self.next_id
    }

    /// The statistics on display.
    pub closed spec fn display_stats(&self) -> MiningDisplayStats {
        self.stats
    }

    /// A stream is active exactly when it has an id.
    pub open spec fn wf(&self) -> bool {
        self.streaming() <==> self.stream() is Some
    }

    /// A panel with the default configuration and no stream.
    pub fn new() -> (r: Self)
        ensures
            r.wf(),
            r.ui_config() == default_ui_config(),
            !r.streaming(),
            r.stream() is None,
            r.next_stream() == 1,
            r.display_stats() == (MiningDisplayStats {
                hashrate: 0,
                shares_accepted: 0,
                shares_rejected: 0,
                difficulty: 0,
                earnings_per_day: 0,
                gpu_temp: 0,
                cpu_usage: 0,
            }),
    {
        MiningPluginFlexForge {
            config: MiningUiConfig::default(),
            stream_active: false,
            stream_id: None,
            next_id: 1,
            stats: MiningDisplayStats::default(),
        }
    }

    /// The id of the panel.
    pub fn panel_id(&self) -> (r: &'static str)
        ensures
            r@ == "essentia_mining_plugin"@,
    {
        "essentia_mining_plugin"
    }

    /// The display name of the panel.
    pub fn display_name(&self) -> (r: &'static str)
        ensures
            r@ == "Crypto Mining"@,
    {
        "Crypto Mining"
    }

    /// The icon glyph of the panel.
    pub fn icon_glyph(&self) -> (r: Option<&'static str>)
        ensures
            r is Some,
            r->0@ == "\u{E8A7}"@,
    {
        Some("\u{E8A7}")
    }

    /// The priority of the panel within its category.
    pub fn priority(&self) -> (r: u32)
        ensures
            r == 25,
    {
        25
    }

    /// How the panel presents itself.
    pub fn panel_info(&self) -> (r: PanelInfo)
        ensures
            r.id@ == "essentia_mining_plugin"@,
            r.name@ == "Crypto Mining"@,
            r.icon is Some,
            r.icon->0@ == "\u{E8A7}"@,
            r.priority == 25,
            r.capabilities@ == seq![
                PanelCapability::Configuration,
                PanelCapability::Streaming,
                PanelCapability::Dashboard,
            ],
    {
        let mut capabilities: Vec<PanelCapability> = Vec::new();
        capabilities.push(PanelCapability::Configuration);
        capabilities.push(PanelCapability::Streaming);
        capabilities.push(PanelCapability::Dashboard);
        assert(capabilities@ =~= seq![
            PanelCapability::Configuration,
            PanelCapability::Streaming,
            PanelCapability::Dashboard,
        ]);
        PanelInfo {
            id: String::from_str(self.panel_id()),
            name: String::from_str(self.display_name()),
            icon: match self.icon_glyph() {
                Some(glyph) => Some(String::from_str(glyph)),
                None => None,
            },
            priority: self.priority(),
            capabilities,
        }
    }

    /// Replaces the statistics on display.
    pub fn update_stats(&mut self, stats: MiningDisplayStats)
        ensures
            final(self).display_stats() == stats,
            final(self).ui_config() == old(self).ui_config(),
            final(self).streaming() == old(self).streaming(),
            final(self).stream() == old(self).stream(),
            final(self).next_stream() == old(self).next_stream(),
    {
        self.stats = stats;
    }

    /// The statistics on display.
    pub fn stats(&self) -> (r: &MiningDisplayStats)
        ensures
            *r == self.display_stats(),
    {
        &self.stats
    }

    /// The configuration.
    pub fn config(&self) -> (r: &MiningUiConfig)
        ensures
            r@ == self.ui_config(),
    {
        &self.config
    }

    fn next_stream_id(&mut self) -> (r: u64)
        ensures
            r == old(self).next_id,
            final(self).next_id == old(self).next_id.wrapping_add(1),
            final(self).config == old(self).config,
            final(self).stream_active == old(self).stream_active,
            final(self).stream_id == old(self).stream_id,
            final(self).stats == old(self).stats,
    {
        let id = self.next_id;
        self.next_id = self.next_id.wrapping_add(1);
        id
    }

    /// Whether the statistics stream is active.
    pub fn is_streaming(&self) -> (r: bool)
        ensures
            r == self.streaming(),
    {
        self.stream_active
    }

    /// Starts the statistics stream under the next stream id, which is
    /// returned. Fails, and changes nothing, when a stream is active.
    pub fn start_stream(&mut self) -> (r: Result<u64, String>)
        ensures
            old(self).wf() ==> final(self).wf(),
            final(self).ui_config() == old(self).ui_config(),
            final(self).display_stats() == old(self).display_stats(),
            old(self).streaming() ==> {
                &&& r is Err
                &&& r->Err_0@ == "Stream already active"@
                &&& final(self).streaming()
                &&& final(self).stream() == old(self).stream()
                &&& final(self).next_stream() == old(self).next_stream()
            },
            !old(self).streaming() ==> {
                &&& r == Ok::<u64, String>(old(self).next_stream())
                &&& final(self).streaming()
                &&& final(self).stream() == Some(old(self).next_stream())
                &&& final(self).next_stream() == old(self).next_stream().wrapping_add(1)
            },
    {
        if self.stream_active {
            return Err(String::from_str("Stream already active"));
        }
        let id = self.next_stream_id();
        self.stream_id = Some(id);
        self.stream_active = true;
        Ok(id)
    }

    /// Stops the stream with the given id. Fails, and changes nothing, when
    /// no stream is active or the active stream has another id.
    pub fn stop_stream(&mut self, stream_id: u64) -> (r: Result<(), String>)
        ensures
            old(self).wf() ==> final(self).wf(),
            final(self).ui_config() == old(self).ui_config(),
            final(self).display_stats() == old(self).display_stats(),
            final(self).next_stream() == old(self).next_stream(),
            !old(self).streaming() ==> {
                &&& r is Err
                &&& r->Err_0@ == "No active stream"@
                &&& !final(self).streaming()
                &&& final(self).stream() == old(self).stream()
            },
            old(self).streaming() && old(self).stream() != Some(stream_id) ==> {
                &&& r is Err
                &&& r->Err_0@ == "Invalid stream ID"@
                &&& final(self).streaming()
                &&& final(self).stream() == old(self).stream()
            },
            old(self).streaming() && old(self).stream() == Some(stream_id) ==> {
                &&& r is Ok
                &&& !final(self).streaming()
                &&& final(self).stream() is None
            },
    {
        if !self.stream_active {
            return Err(String::from_str("No active stream"));
        }
        let same = match self.stream_id {
            Some(id) => id == stream_id,
            None => false,
        };
        if !same {
            return Err(String::from_str("Invalid stream ID"));
        }
        self.stream_active = false;
        self.stream_id = None;
        Ok(())
    }

    /// Frames per second that the stream aims at.
    pub fn target_fps(&self) -> (r: u32)
        ensures
            r == 2,
    {
        2
    }

    /// Whether a frame is rendered for the given stream: it is the active stream.
    pub fn render_frame(&mut self, stream_id: u64, delta_ms: u64) -> (r: bool)
        ensures
            r == (old(self).streaming() && old(self).stream() == Some(stream_id)),
            final(self).ui_config() == old(self).ui_config(),
            final(self).display_stats() == old(self).display_stats(),
            final(self).streaming() == old(self).streaming(),
            final(self).stream() == old(self).stream(),
            final(self).next_stream() == old(self).next_stream(),
    {
        let same = match self.stream_id {
            Some(id) => id == stream_id,
            None => false,
        };
        self.stream_active && same
    }

    /// The panel came into view: the stream starts if mining is enabled and
    /// no stream is active.
    pub fn on_panel_activate(&mut self)
        ensures
            old(self).wf() ==> final(self).wf(),
            final(self).ui_config() == old(self).ui_config(),
            final(self).display_stats() == old(self).display_stats(),
            old(self).ui_config().mining_enabled && !old(self).streaming() ==> {
                &&& final(self).streaming()
                &&& final(self).stream() == Some(old(self).next_stream())
                &&& final(self).next_stream() == old(self).next_stream().wrapping_add(1)
            },
            !(old(self).ui_config().mining_enabled && !old(self).streaming()) ==> {
                &&& final(self).streaming() == old(self).streaming()
                &&& final(self).stream() == old(self).stream()
                &&& final(self).next_stream() == old(self).next_stream()
            },
    {
        if self.config.mining_enabled && !self.stream_active {
            let _ = self.start_stream();
        }
    }

    /// The panel went out of view: the active stream stops.
    pub fn on_panel_deactivate(&mut self)
        ensures
            old(self).wf() ==> final(self).wf(),
            final(self).ui_config() == old(self).ui_config(),
            final(self).display_stats() == old(self).display_stats(),
            final(self).next_stream() == old(self).next_stream(),
            old(self).streaming() && old(self).stream() is Some ==> !final(self).streaming()
                && final(self).stream() is None,
            !(old(self).streaming() && old(self).stream() is Some) ==> final(self).streaming()
                == old(self).streaming() && final(self).stream() == old(self).stream(),
    {
        if self.stream_active {
            match self.stream_id {
                Some(id) => {
                    let _ = self.stop_stream(id);
                },
                None => {},
            }
        }
    }

    /// Whether the panel needs a refresh: the stream is active and mining is enabled.
    pub fn on_refresh(&mut self) -> (r: bool)
        ensures
            r == (old(self).streaming() && old(self).ui_config().mining_enabled),
            final(self).ui_config() == old(self).ui_config(),
            final(self).display_stats() == old(self).display_stats(),
            final(self).streaming() == old(self).streaming(),
            final(self).stream() == old(self).stream(),
            final(self).next_stream() == old(self).next_stream(),
    {
        self.stream_active && self.config.mining_enabled
    }

    /// The fields of the configuration form.
    pub fn config_schema(&self) -> (r: Vec<SchemaField>)
        ensures
            r@.len() == 9,
            forall|i: int|
                0 <= i < 9 ==> {
                    &&& (#[trigger] r@[i]).key@ == schema_keys()[i]
                    &&& r@[i].kind == schema_kinds()[i]
                    &&& r@[i].label@ == schema_labels()[i]
                    &&& r@[i].description@ == schema_descriptions()[i]
                    &&& r@[i].group@ == schema_groups()[i]
                },
    {
        let mut fields: Vec<SchemaField> = Vec::new();
        fields.push(
            SchemaField {
                key: "mining_enabled",
                label: "Enable Mining",
                kind: FieldKind::Toggle { on: false },
                description: "Enable cryptocurrency mining",
                group: "General",
            },
        );
        fields.push(
            SchemaField {
                key: "pool_address",
                label: "Pool Address",
                kind: FieldKind::Text,
                description: "Mining pool stratum address",
                group: "Pool",
            },
        );
        fields.push(
            SchemaField {
                key: "wallet_address",
                label: "Wallet Address",
                kind: FieldKind::Text,
                description: "Your wallet address for payouts",
                group: "Pool",
            },
        );
        fields.push(
            SchemaField {
                key: "worker_name",
                label: "Worker Name",
                kind: FieldKind::Text,
                description: "Identifier for this mining worker",
                group: "Pool",
            },
        );
        fields.push(
            SchemaField {
                key: "cpu_mining",
                label: "CPU Mining",
                kind: FieldKind::Toggle { on: false },
                description: "Use CPU for mining",
                group: "Hardware",
            },
        );
        fields.push(
            SchemaField {
                key: "gpu_mining",
                label: "GPU Mining",
                kind: FieldKind::Toggle { on: true },
                description: "Use GPU for mining",
                group: "Hardware",
            },
        );
        fields.push(
            SchemaField {
                key: "cpu_threads",
                label: "CPU Threads",
                kind: FieldKind::Number { default: 2, min: 1, max: 32 },
                description: "Number of CPU threads for mining",
                group: "Hardware",
            },
        );
        fields.push(
            SchemaField {
                key: "gpu_intensity",
                label: "GPU Intensity (%)",
                kind: FieldKind::Number { default: 70, min: 10, max: 100 },
                description: "GPU mining intensity",
                group: "Hardware",
            },
        );
        fields.push(
            SchemaField {
                key: "temp_limit",
                label: "Temperature Limit (\u{B0}C)",
                kind: FieldKind::Number { default: 80, min: 50, max: 95 },
                description: "Maximum allowed GPU temperature",
                group: "Safety",
            },
        );
        fields
    }

    /// Changes the value under `key`. A switch is on exactly for the value
    /// `true`; a number field takes the whole part of a number, at most 255.
    /// Fails, and changes nothing, for an unknown key or a value that is no
    /// number where one is needed.
    pub fn on_config_changed(&mut self, key: &str, value: &str) -> (r: Result<(), String>)
        ensures
            final(self).display_stats() == old(self).display_stats(),
            final(self).streaming() == old(self).streaming(),
            final(self).stream() == old(self).stream(),
            final(self).next_stream() == old(self).next_stream(),
            final(self).ui_config() == changed(old(self).ui_config(), key@, value@),
            match change_error(key@, value@) {
                Some(message) => {
                    &&& r is Err
                    &&& r->Err_0@ == message
                    &&& final(self).ui_config() == old(self).ui_config()
                },
                None => r is Ok,
            },
    {
        if str_eq(key, "mining_enabled") {
            self.config.mining_enabled = str_eq(value, "true");
            Ok(())
        } else if str_eq(key, "pool_address") {
            self.config.pool_address = String::from_str(value);
            Ok(())
        } else if str_eq(key, "wallet_address") {
            self.config.wallet_address = String::from_str(value);
            Ok(())
        } else if str_eq(key, "worker_name") {
            self.config.worker_name = String::from_str(value);
            Ok(())
        } else if str_eq(key, "cpu_mining") {
            self.config.cpu_mining = str_eq(value, "true");
            Ok(())
        } else if str_eq(key, "gpu_mining") {
            self.config.gpu_mining = str_eq(value, "true");
            Ok(())
        } else if str_eq(key, "cpu_threads") {
            match parse_number(value) {
                Some(threads) => {
                    self.config.cpu_threads = threads;
                    Ok(())
                },
                None => Err(String::from_str("Invalid thread count")),
            }
        } else if str_eq(key, "gpu_intensity") {
            match parse_number(value) {
                Some(intensity) => {
                    self.config.gpu_intensity = intensity;
                    Ok(())
                },
                None => Err(String::from_str("Invalid intensity")),
            }
        } else if str_eq(key, "temp_limit") {
            match parse_number(value) {
                Some(limit) => {
                    self.config.temp_limit = limit;
                    Ok(())
                },
                None => Err(String::from_str("Invalid temperature")),
            }
        } else {
            Err(join("Unknown configuration key: ", key))
        }
    }

    /// Applies changes in order up to the first that meets an error, which
    /// is returned; the changes before it stay applied.
    pub fn apply_config(&mut self, config: &[(String, String)]) -> (r: Result<(), String>)
        ensures
            final(self).display_stats() == old(self).display_stats(),
            final(self).streaming() == old(self).streaming(),
            final(self).stream() == old(self).stream(),
            final(self).next_stream() == old(self).next_stream(),
            final(self).ui_config() == changed_by(
                old(self).ui_config(),
                config@,
                accepted_changes(config@),
            ),
            accepted_changes(config@) == config@.len() ==> r is Ok,
            accepted_changes(config@) < config@.len() ==> r is Err && Some(r->Err_0@) == change_error(
                config@[accepted_changes(config@) as int].0@,
                config@[accepted_changes(config@) as int].1@,
            ),
    {
        let n = config.len();
        let mut i: usize = 0;
        while i < n
            invariant
                i <= n,
                n == config@.len(),
                forall|j: int|
                    0 <= j < i ==> change_error((#[trigger] config@[j]).0@, config@[j].1@) is None,
                self.ui_config() == changed_by(old(self).ui_config(), config@, i as nat),
                self.display_stats() == old(self).display_stats(),
                self.streaming() == old(self).streaming(),
                self.stream() == old(self).stream(),
                self.next_stream() == old(self).next_stream(),
            decreases n - i,
        {
            match self.on_config_changed(config[i].0.as_str(), config[i].1.as_str()) {
                Ok(()) => {},
                Err(message) => {
                    proof {
                        lemma_accepted_changes(config@, i as int);
                    }
                    return Err(message);
                },
            }
            i += 1;
        }
        proof {
            lemma_accepted_changes(config@, n as int);
        }
        Ok(())
    }

    /// The configuration as pairs of key and value, in the order of the form.
    pub fn get_current_config(&self) -> (r: Vec<(String, String)>)
        ensures
            r@.len() == 9,
            forall|i: int|
                0 <= i < 9 ==> ((#[trigger] r@[i]).0@, r@[i].1@) == config_pairs(self.ui_config())[i],
    {
        let mut pairs: Vec<(String, String)> = Vec::new();
        pairs.push((String::from_str("mining_enabled"), bool_string(self.config.mining_enabled)));
        pairs.push((String::from_str("pool_address"), self.config.pool_address.clone()));
        pairs.push((String::from_str("wallet_address"), self.config.wallet_address.clone()));
        pairs.push((String::from_str("worker_name"), self.config.worker_name.clone()));
        pairs.push((String::from_str("cpu_mining"), bool_string(self.config.cpu_mining)));
        pairs.push((String::from_str("gpu_mining"), bool_string(self.config.gpu_mining)));
        pairs.push(
            (String::from_str("cpu_threads"), render_decimal(self.config.cpu_threads as u128)),
        );
        pairs.push(
            (String::from_str("gpu_intensity"), render_decimal(self.config.gpu_intensity as u128)),
        );
        pairs.push((String::from_str("temp_limit"), render_decimal(self.config.temp_limit as u128)));
        pairs
    }

    /// Puts the default configuration back.
    pub fn reset_to_defaults(&mut self)
        ensures
            final(self).ui_config() == default_ui_config(),
            final(self).display_stats() == old(self).display_stats(),
            final(self).streaming() == old(self).streaming(),
            final(self).stream() == old(self).stream(),
            final(self).next_stream() == old(self).next_stream(),
    {
        self.config = MiningUiConfig::default();
    }
}

impl Default for MiningPluginFlexForge {
    fn default() -> (r: Self)
        ensures
            r.wf(),
            r.ui_config() == default_ui_config(),
            !r.streaming(),
            r.stream() is None,
            r.next_stream() == 1,
    {
        MiningPluginFlexForge::new()
    }
}

} // verus!
