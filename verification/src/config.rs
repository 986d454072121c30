//! The configuration: where targets come from and what is known of each.
pub mod env;
pub mod yml;

use crate::config::env::Environment;
use crate::config::yml::{RawEntry, TargetRaw};
use crate::text;
use serde_yaml::Value;
use vstd::prelude::*;

verus! {

/// A TCP address to relay to, with its optional weight and TLS files.
#[derive(Debug, Clone)]
pub struct Target {
    pub addr: String,
    pub weight: Option<u32>,
    pub ca: Option<String>,
    pub cert: Option<String>,
    pub key: Option<String>,
}

/// What is known of a target.
#[verifier::ext_equal]
pub struct TargetView {
    pub addr: Seq<char>,
    pub weight: Option<u32>,
    pub ca: Option<Seq<char>>,
    pub cert: Option<Seq<char>>,
    pub key: Option<Seq<char>>,
}

impl View for Target {
    type V = TargetView;

    open spec fn view(&self) -> TargetView {
        TargetView {
            addr: self.addr@,
            weight: self.weight,
            ca: text::text_of(self.ca),
            cert: text::text_of(self.cert),
            key: text::text_of(self.key),
        }
    }
}

impl TargetView {
    /// A target of which only the address is known.
    pub open spec fn plain(addr: Seq<char>) -> TargetView {
        TargetView { addr, weight: None, ca: None, cert: None, key: None }
    }

    /// Whether the client certificate and its key are both set or both omitted.
    pub open spec fn has_valid_tls_pair(self) -> bool {
        (self.cert is Some) == (self.key is Some)
    }

    /// Whether the weight is omitted or between 1 and the maximum.
    pub open spec fn has_weight_in_range(self) -> bool {
        self.weight matches Some(w) ==> 1 <= w <= Target::MAX_WEIGHT
    }
}

/// The views of a sequence of targets.
pub open spec fn target_views(v: Seq<Target>) -> Seq<TargetView> {
    v.map_values(|t: Target| t@)
}

impl Target {
    /// The largest weight that a target can have.
    pub const MAX_WEIGHT: u32 = 100;

    /// A target of which only the address is known.
    pub fn from(addr: String) -> (r: Self)
        ensures
            r@ == TargetView::plain(addr@),
            r.addr == addr,
    {
        Self { addr, weight: None, ca: None, cert: None, key: None }
    }

    /// Whether the client certificate and its key are both set or both omitted.
    pub fn tls_pair_is_valid(&self) -> (r: bool)
        ensures
            r == self@.has_valid_tls_pair(),
    {
        self.cert.is_some() == self.key.is_some()
    }

    /// Whether the weight is omitted or between 1 and the maximum.
    pub fn weight_in_range(&self) -> (r: bool)
        ensures
            r == self@.has_weight_in_range(),
    {
        match self.weight {
            Some(w) => 1 <= w && w <= Self::MAX_WEIGHT,
            None => true,
        }
    }
}

/// Everything that the relay is configured with.
#[derive(Debug, Clone)]
pub struct Config {
    pub service_name: String,
    pub targets: Vec<Target>,
    pub base_dir: String,
    pub max_connections: usize,
    pub metrics_interval_secs: u64,
}

/// What a configuration says.
#[verifier::ext_equal]
pub struct ConfigView {
    pub service_name: Seq<char>,
    pub targets: Seq<TargetView>,
    pub base_dir: Seq<char>,
    pub max_connections: usize,
    pub metrics_interval_secs: u64,
}

impl View for Config {
    type V = ConfigView;

    open spec fn view(&self) -> ConfigView {
        ConfigView {
            service_name: self.service_name@,
            targets: target_views(self.targets@),
            base_dir: self.base_dir@,
            max_connections: self.max_connections,
            metrics_interval_secs: self.metrics_interval_secs,
        }
    }
}

/// Why there is no configuration.
#[derive(Debug, Clone)]
pub enum LoadError {
    /// No variable gives the service name.
    MissingServiceName,
    /// The targets file at this path cannot be read, for this reason.
    UnreadableTargetsFile(String, String),
    /// The targets file at this path is not a YAML document, for this reason.
    InvalidTargetsFile(String, String),
    /// No target is configured.
    NoTargets,
}

impl LoadError {
    /// The text of the error.
    pub open spec fn text(&self) -> Seq<char> {
        match *self {
            LoadError::MissingServiceName => "NAUTROUDS_SERVICE_NAME is required"@,
            LoadError::UnreadableTargetsFile(path, cause) => "failed to read targets file: "@ + path@
                + ": "@ + cause@,
            LoadError::InvalidTargetsFile(path, cause) => "failed to parse targets file as YAML: "@
                + path@ + ": "@ + cause@,
            LoadError::NoTargets => "NAUTROUDS_TARGET_ADDR must contain at least one address"@,
        }
    }

    /// The error in words.
    pub fn message(&self) -> (r: String)
        ensures
            r@ == self.text(),
    {
        match self {
            LoadError::MissingServiceName => "NAUTROUDS_SERVICE_NAME is required".to_owned(),
            LoadError::UnreadableTargetsFile(path, cause) => text::chained(
                "failed to read targets file: ",
                path.as_str(),
                cause.as_str(),
            ),
            LoadError::InvalidTargetsFile(path, cause) => text::chained(
                "failed to parse targets file as YAML: ",
                path.as_str(),
                cause.as_str(),
            ),
            LoadError::NoTargets =>
                "NAUTROUDS_TARGET_ADDR must contain at least one address".to_owned(),
        }
    }
}

/// The targets file, as far as it could be read.
pub enum TargetsFile {
    /// No targets file is configured.
    Absent,
    /// The file at this path cannot be read, for this reason.
    Unreadable(String, String),
    /// The file at this path has this content.
    Content(String, String),
}

/// Whether `r` is the configuration `cfg`, or the error for one without targets.
pub open spec fn checked(cfg: ConfigView, r: Result<Config, LoadError>) -> bool {
    if cfg.targets.len() == 0 {
        r matches Err(e) && e is NoTargets
    } else {
        r matches Ok(c) && c@ == cfg
    }
}

/// A configuration with other targets.
pub open spec fn retargeted(cfg: ConfigView, targets: Seq<TargetView>) -> ConfigView {
    ConfigView { targets, ..cfg }
}

/// The configuration from the environment and the targets file. `decode` reads the fields of a
/// target from its value in the file.
pub fn load<D: Fn(Value) -> Option<TargetRaw>>(
    env: &Environment,
    file: TargetsFile,
    decode: D,
) -> (r: Result<Config, LoadError>)
    requires
        forall|v: Value| call_requires(decode, (v,)),
    ensures
        match env::first_value(env@, env::service_name_keys()) {
            None => r matches Err(e) && e is MissingServiceName,
            Some(name) => match file {
                TargetsFile::Absent => checked(env::configured(env@, name), r),
                TargetsFile::Unreadable(path, cause) => r matches Err(
                    LoadError::UnreadableTargetsFile(p, c),
                ) && p == path && c == cause,
                TargetsFile::Content(path, content) => match yml::yaml_document(content@) {
                    Err(cause) => r matches Err(LoadError::InvalidTargetsFile(p, c)) && p@ == path@
                        && c@ == cause,
                    Ok(value) => match yml::yaml_entries(value) {
                        None => checked(env::configured(env@, name), r),
                        Some(entries) => exists|raws: Seq<RawEntry>|
                            {
                                &&& #[trigger] yml::decoded(decode, yml::addressed(entries), raws)
                                &&& checked(
                                    retargeted(
                                        env::configured(env@, name),
                                        yml::described_targets(raws),
                                    ),
                                    r,
                                )
                            },
                    },
                },
            },
        },
{
    let cfg = match env::load(env) {
        Ok(cfg) => cfg,
        Err(e) => return Err(e),
    };
    let cfg = match file {
        TargetsFile::Absent => cfg,
        TargetsFile::Unreadable(path, cause) => return Err(
            LoadError::UnreadableTargetsFile(path, cause),
        ),
        TargetsFile::Content(path, content) => match yml::load(
            cfg,
            path.as_str(),
            content.as_str(),
            decode,
        ) {
            Ok(cfg) => cfg,
            Err(e) => return Err(e),
        },
    };
    assert(cfg@.targets.len() == cfg.targets@.len());
    if cfg.targets.is_empty() {
        return Err(LoadError::NoTargets);
    }
    Ok(cfg)
}

/// Every target has a weight in range, whether it comes from the variables or from the file.
pub proof fn configured_weights_are_in_range(
    vars: Seq<(Seq<char>, Seq<char>)>,
    service_name: Seq<char>,
    raws: Seq<RawEntry>,
)
    ensures
        ({
            let plain = env::configured(vars, service_name);
            let listed = retargeted(plain, yml::described_targets(raws));
            &&& forall|i: int|
                0 <= i < plain.targets.len() ==> (
                #[trigger] plain.targets[i]).has_weight_in_range()
            &&& forall|i: int|
                0 <= i < listed.targets.len() ==> (
                #[trigger] listed.targets[i]).has_weight_in_range()
        }),
{
    yml::described_weights_are_in_range(raws);
}

/// A file that lists targets replaces those of the variables completely: whatever addresses the
/// variables give, the targets are those of the file, and the rest is as the variables say.
pub proof fn file_replaces_targets_only(
    vars: Seq<(Seq<char>, Seq<char>)>,
    service_name: Seq<char>,
    raws: Seq<RawEntry>,
)
    ensures
        ({
            let plain = env::configured(vars, service_name);
            let listed = retargeted(plain, yml::described_targets(raws));
            &&& listed.targets == yml::described_targets(raws)
            &&& listed.service_name == service_name
            &&& listed.base_dir == plain.base_dir
            &&& listed.max_connections == plain.max_connections
            &&& listed.metrics_interval_secs == plain.metrics_interval_secs
        }),
{
}

/// A configuration is loaded exactly if it has a target; one that is loaded is the given one.
pub proof fn a_configuration_has_targets(cfg: ConfigView, r: Result<Config, LoadError>)
    requires
        checked(cfg, r),
    ensures
        r is Ok <==> cfg.targets.len() > 0,
        r is Err ==> r->Err_0 is NoTargets,
        r matches Ok(c) ==> {
            &&& c.targets@.len() == cfg.targets.len()
            &&& c.service_name@ == cfg.service_name
            &&& c.base_dir@ == cfg.base_dir
            &&& c.max_connections == cfg.max_connections
            &&& c.metrics_interval_secs == cfg.metrics_interval_secs
            &&& forall|i: int|
                0 <= i < c.targets@.len() ==> (#[trigger] c.targets@[i])@ == cfg.targets[i]
        },
{
    if let Ok(c) = r {
        assert(c@.targets.len() == c.targets@.len());
        assert forall|i: int| 0 <= i < c.targets@.len() implies (#[trigger] c.targets@[i])@
            == cfg.targets[i] by {
            assert(c@.targets[i] == c.targets@[i]@);
        }
    }
}

/// A configuration that is loaded with a targets file has the targets that the file describes, each
/// with the address, the weight and the TLS files that its entry gives, whatever addresses the
/// variables list.
pub proof fn a_file_describes_its_targets(
    vars: Seq<(Seq<char>, Seq<char>)>,
    service_name: Seq<char>,
    raws: Seq<RawEntry>,
    r: Result<Config, LoadError>,
)
    requires
        checked(retargeted(env::configured(vars, service_name), yml::described_targets(raws)), r),
    ensures
        r is Ok <==> raws.len() > 0,
        r matches Ok(cfg) ==> {
            &&& cfg.targets@.len() == raws.len()
            &&& forall|i: int|
                0 <= i < raws.len() ==> {
                    let target = #[trigger] cfg.targets@[i];
                    &&& target.addr@ == raws[i].addr@
                    &&& raws[i].raw matches Some(raw) ==> {
                        &&& text::text_of(target.ca) == text::text_of(raw.ca)
                        &&& text::text_of(target.cert) == text::text_of(raw.cert)
                        &&& text::text_of(target.key) == text::text_of(raw.key)
                        &&& target.weight == (match raw.weight {
                            Some(value) => yml::clamped_weight(yml::yaml_integer(value)),
                            None => None,
                        })
                    }
                    &&& raws[i].raw is None ==> target.ca is None && target.cert is None
                        && target.key is None && target.weight is None
                }
        },
{
    let before = env::configured(vars, service_name);
    if let Ok(cfg) = r {
        assert(cfg@ == (ConfigView { targets: yml::described_targets(raws), ..before }));
        yml::entries_are_taken_over(before, raws, cfg);
    }
}

/// A target is valid for TLS exactly if it has both a client certificate and a key, or neither; its
/// weight is in range exactly if it is omitted or one of 1 to 100.
pub proof fn targets_are_judged(target: TargetView)
    ensures
        target.has_valid_tls_pair() <==> (target.cert is Some && target.key is Some)
            || (target.cert is None && target.key is None),
        target.has_weight_in_range() <==> (target.weight is None || (1 <= target.weight->0
            && target.weight->0 <= 100)),
{
}

/// The texts of the errors name the file and tell the cause.
pub proof fn errors_tell_their_cause(path: String, cause: String)
    ensures
        LoadError::MissingServiceName.text() == "NAUTROUDS_SERVICE_NAME is required"@,
        LoadError::NoTargets.text() == "NAUTROUDS_TARGET_ADDR must contain at least one address"@,
        LoadError::UnreadableTargetsFile(path, cause).text() == "failed to read targets file: "@
            + path@ + ": "@ + cause@,
        LoadError::InvalidTargetsFile(path, cause).text()
            == "failed to parse targets file as YAML: "@ + path@ + ": "@ + cause@,
{
}

} // verus!
