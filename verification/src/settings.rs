//! The strongly typed settings document and its resolution.
//!
//! `Settings::new` merges the four configuration sources in a fixed
//! precedence order — optional defaults, required run-mode file, required
//! Elasticsearch mappings and settings files — applies the `key=value`
//! overrides last, and extracts the typed fields.  It fails fast: the
//! first invalid step yields its error, never a partial value.

use vstd::prelude::*;

verus! {

use vstd::string::StringExecFns;
use crate::coerce::{coerce_spec, coerce_override, split_spec, split_override};
use crate::parse::{json_entries_of, toml_entries_of, parse_json_flat, parse_toml_flat};
use crate::value::{
    Leaf, LeafS, ResolvedConfig, lookup, merge_spec, set_path_spec, subdoc_spec,
};

/// Which failure a resolution error reports.
#[derive(Debug, PartialEq, Eq, Clone, Copy)]
pub enum ErrorKind {
    ArgMissing,
    MissingRunMode,
    ConfigMerge,
    ConfigExtract,
    OverrideMalformed,
}

/// A resolution failure, with a human-readable message.
#[derive(Debug, PartialEq, Eq)]
pub enum Error {
    ArgMissing { msg: String },
    MissingRunMode { msg: String },
    ConfigMerge { msg: String },
    ConfigExtract { msg: String },
    OverrideMalformed { msg: String },
}

impl Error {
    /// The kind of failure this error reports.
    pub open spec fn kind(&self) -> ErrorKind {
        match self {
            Error::ArgMissing { .. } => ErrorKind::ArgMissing,
            Error::MissingRunMode { .. } => ErrorKind::MissingRunMode,
            Error::ConfigMerge { .. } => ErrorKind::ConfigMerge,
            Error::ConfigExtract { .. } => ErrorKind::ConfigExtract,
            Error::OverrideMalformed { .. } => ErrorKind::OverrideMalformed,
        }
    }

    pub open spec fn spec_msg(&self) -> Seq<char> {
        match self {
            Error::ArgMissing { msg } => msg@,
            Error::MissingRunMode { msg } => msg@,
            Error::ConfigMerge { msg } => msg@,
            Error::ConfigExtract { msg } => msg@,
            Error::OverrideMalformed { msg } => msg@,
        }
    }

    /// The human-readable message.
    pub fn message(&self) -> (r: String)
        ensures
            r@ == self.spec_msg(),
    {
        match self {
            Error::ArgMissing { msg } => msg.clone(),
            Error::MissingRunMode { msg } => msg.clone(),
            Error::ConfigMerge { msg } => msg.clone(),
            Error::ConfigExtract { msg } => msg.clone(),
            Error::OverrideMalformed { msg } => msg.clone(),
        }
    }
}

/// Where rolling log files are written.
#[derive(Debug, PartialEq, Eq)]
pub struct Logging {
    pub path: String,
}

pub struct LoggingV {
    pub path: Seq<char>,
}

impl View for Logging {
    type V = LoggingV;

    open spec fn view(&self) -> LoggingV {
        LoggingV { path: self.path@ }
    }
}

/// The bind address of the service.
#[derive(Debug, PartialEq, Eq)]
pub struct Service {
    pub host: String,
    pub port: u16,
}

pub struct ServiceV {
    pub host: Seq<char>,
    pub port: u16,
}

impl View for Service {
    type V = ServiceV;

    open spec fn view(&self) -> ServiceV {
        ServiceV { host: self.host@, port: self.port }
    }
}

/// The search cluster: its base URL, index settings and field mappings,
/// the latter two as sub-documents of the merged configuration.
#[derive(Debug, PartialEq, Eq)]
pub struct Elasticsearch {
    pub url: String,
    pub settings: ResolvedConfig,
    pub mappings: ResolvedConfig,
}

pub struct ElasticsearchV {
    pub url: Seq<char>,
    pub settings: Seq<(Seq<char>, LeafS)>,
    pub mappings: Seq<(Seq<char>, LeafS)>,
}

impl View for Elasticsearch {
    type V = ElasticsearchV;

    open spec fn view(&self) -> ElasticsearchV {
        ElasticsearchV { url: self.url@, settings: self.settings@, mappings: self.mappings@ }
    }
}

/// The resolved settings document; every field is required.
#[derive(Debug, PartialEq, Eq)]
pub struct Settings {
    pub mode: String,
    pub logging: Logging,
    pub elasticsearch: Elasticsearch,
    pub service: Service,
}

pub struct SettingsV {
    pub mode: Seq<char>,
    pub logging: LoggingV,
    pub elasticsearch: ElasticsearchV,
    pub service: ServiceV,
}

impl View for Settings {
    type V = SettingsV;

    open spec fn view(&self) -> SettingsV {
        SettingsV {
            mode: self.mode@,
            logging: self.logging@,
            elasticsearch: self.elasticsearch@,
            service: self.service@,
        }
    }
}

/// The texts of the four configuration sources, `None` for a file that
/// does not exist.  Only the default layer may be absent.
#[derive(Debug, PartialEq, Eq)]
pub struct Sources {
    pub default_toml: Option<String>,
    pub mode_toml: Option<String>,
    pub mappings_json: Option<String>,
    pub settings_json: Option<String>,
}

pub struct SourcesV {
    pub default_toml: Option<Seq<char>>,
    pub mode_toml: Option<Seq<char>>,
    pub mappings_json: Option<Seq<char>>,
    pub settings_json: Option<Seq<char>>,
}

pub open spec fn opt_text(o: Option<String>) -> Option<Seq<char>> {
    match o {
        Some(s) => Some(s@),
        None => None,
    }
}

impl View for Sources {
    type V = SourcesV;

    open spec fn view(&self) -> SourcesV {
        SourcesV {
            default_toml: opt_text(self.default_toml),
            mode_toml: opt_text(self.mode_toml),
            mappings_json: opt_text(self.mappings_json),
            settings_json: opt_text(self.settings_json),
        }
    }
}

/// The string leaf at `p`, if the document has one there.
pub open spec fn str_at(d: Seq<(Seq<char>, LeafS)>, p: Seq<char>) -> Option<Seq<char>> {
    match lookup(d, p) {
        Some(LeafS::Str(s)) => Some(s),
        _ => None,
    }
}

/// The integer leaf at `p` read as a port number, if in range.
pub open spec fn port_at(d: Seq<(Seq<char>, LeafS)>, p: Seq<char>) -> Option<u16> {
    match lookup(d, p) {
        Some(LeafS::Int(i)) => if 0 <= i <= 65535 {
            Some(i as u16)
        } else {
            None
        },
        _ => None,
    }
}

/// The typed document held by a merged configuration, if every required
/// field is present with the right shape.
pub open spec fn extract_spec(d: Seq<(Seq<char>, LeafS)>) -> Option<SettingsV> {
    match (
        str_at(d, "mode"@),
        str_at(d, "logging.path"@),
        str_at(d, "elasticsearch.url"@),
        str_at(d, "service.host"@),
        port_at(d, "service.port"@),
    ) {
        (Some(mode), Some(lp), Some(url), Some(host), Some(port)) => {
            let es_settings = subdoc_spec(d, "elasticsearch.settings"@);
            let es_mappings = subdoc_spec(d, "elasticsearch.mappings"@);
            if es_settings.len() > 0 && es_mappings.len() > 0 {
                Some(
                    SettingsV {
                        mode,
                        logging: LoggingV { path: lp },
                        elasticsearch: ElasticsearchV {
                            url,
                            settings: es_settings,
                            mappings: es_mappings,
                        },
                        service: ServiceV { host, port },
                    },
                )
            } else {
                None
            }
        },
        _ => None,
    }
}

/// The overrides applied to `d` in order, each split around its single
/// `=` and coerced; `None` when some override does not split.
pub open spec fn apply_overrides_spec(
    d: Seq<(Seq<char>, LeafS)>,
    ovs: Seq<Seq<char>>,
) -> Option<Seq<(Seq<char>, LeafS)>>
    decreases ovs.len(),
{
    if ovs.len() == 0 {
        Some(d)
    } else {
        match apply_overrides_spec(d, ovs.drop_last()) {
            None => None,
            Some(d2) => match split_spec(ovs.last()) {
                None => None,
                Some(kv) => Some(set_path_spec(d2, kv.0, coerce_spec(kv.1))),
            },
        }
    }
}

pub open spec fn overrides_view(ovs: Seq<String>) -> Seq<Seq<char>> {
    ovs.map_values(|s: String| s@)
}

/// What resolution returns for given source texts and overrides: the
/// merged, overridden and extracted settings, or the first failure.
pub open spec fn resolve_spec(sv: SourcesV, ovs: Seq<Seq<char>>) -> Result<SettingsV, ErrorKind> {
    let base = match sv.default_toml {
        None => Some(Seq::<(Seq<char>, LeafS)>::empty()),
        Some(t) => toml_entries_of(t),
    };
    match base {
        None => Err(ErrorKind::ConfigMerge),
        Some(b) => match sv.mode_toml {
            None => Err(ErrorKind::ConfigMerge),
            Some(mt) => match toml_entries_of(mt) {
                None => Err(ErrorKind::ConfigMerge),
                Some(m) => match sv.mappings_json {
                    None => Err(ErrorKind::ConfigMerge),
                    Some(pj) => match json_entries_of(pj) {
                        None => Err(ErrorKind::ConfigMerge),
                        Some(mp) => match sv.settings_json {
                            None => Err(ErrorKind::ConfigMerge),
                            Some(sj) => match json_entries_of(sj) {
                                None => Err(ErrorKind::ConfigMerge),
                                Some(st) => {
                                    let merged = merge_spec(merge_spec(merge_spec(b, m), mp), st);
                                    match apply_overrides_spec(merged, ovs) {
                                        None => Err(ErrorKind::OverrideMalformed),
                                        Some(d) => match extract_spec(d) {
                                            None => Err(ErrorKind::ConfigExtract),
                                            Some(s) => Ok(s),
                                        },
                                    }
                                },
                            },
                        },
                    },
                },
            },
        },
    }
}

/// Resolution is deterministic: equal source texts and equal overrides
/// give equal results, settings or error alike.
pub proof fn lemma_resolve_deterministic(
    a: SourcesV,
    b: SourcesV,
    ov_a: Seq<Seq<char>>,
    ov_b: Seq<Seq<char>>,
)
    requires
        a == b,
        ov_a == ov_b,
    ensures
        resolve_spec(a, ov_a) == resolve_spec(b, ov_b),
{
}

/// A missing required run-mode file is a merge error, never a partial
/// settings value.
pub proof fn lemma_missing_mode_file(sv: SourcesV, ovs: Seq<Seq<char>>)
    requires
        sv.mode_toml is None,
    ensures
        resolve_spec(sv, ovs) == Err::<SettingsV, ErrorKind>(ErrorKind::ConfigMerge),
{
}

fn get_str_leaf(d: &ResolvedConfig, path: &str) -> (r: Option<String>)
    ensures
        match r {
            Some(s) => str_at(d@, path@) == Some(s@),
            None => str_at(d@, path@) is None,
        },
{
    match d.get(path) {
        Some(Leaf::Str(s)) => Some(s),
        Some(_) => None,
        None => None,
    }
}

fn get_port(d: &ResolvedConfig, path: &str) -> (r: Option<u16>)
    ensures
        r == port_at(d@, path@),
{
    match d.get(path) {
        Some(Leaf::Int(i)) => if 0 <= i && i <= 65535 {
            Some(i as u16)
        } else {
            None
        },
        Some(_) => None,
        None => None,
    }
}

fn extract_err(path: &str) -> (r: Error)
    ensures
        r.kind() == ErrorKind::ConfigExtract,
{
    let mut msg = "missing or ill-shaped settings field: ".to_owned();
    msg.append(path);
    Error::ConfigExtract { msg }
}

fn extract(d: &ResolvedConfig) -> (r: Result<Settings, Error>)
    ensures
        match r {
            Ok(s) => extract_spec(d@) == Some(s@),
            Err(e) => extract_spec(d@) is None && e.kind() == ErrorKind::ConfigExtract,
        },
{
    let mode = match get_str_leaf(d, "mode") {
        Some(s) => s,
        None => { return Err(extract_err("mode")); },
    };
    let logging_path = match get_str_leaf(d, "logging.path") {
        Some(s) => s,
        None => { return Err(extract_err("logging.path")); },
    };
    let url = match get_str_leaf(d, "elasticsearch.url") {
        Some(s) => s,
        None => { return Err(extract_err("elasticsearch.url")); },
    };
    let host = match get_str_leaf(d, "service.host") {
        Some(s) => s,
        None => { return Err(extract_err("service.host")); },
    };
    let port = match get_port(d, "service.port") {
        Some(p) => p,
        None => { return Err(extract_err("service.port")); },
    };
    let es_settings = d.subdoc("elasticsearch.settings");
    if es_settings.entries.len() == 0 {
        return Err(extract_err("elasticsearch.settings"));
    }
    let es_mappings = d.subdoc("elasticsearch.mappings");
    if es_mappings.entries.len() == 0 {
        return Err(extract_err("elasticsearch.mappings"));
    }
    Ok(
        Settings {
            mode,
            logging: Logging { path: logging_path },
            elasticsearch: Elasticsearch { url, settings: es_settings, mappings: es_mappings },
            service: Service { host, port },
        },
    )
}

/// The last override wins: after the overrides are applied, the path of
/// the final override holds its coerced value, whatever any file layer or
/// earlier override set there.
pub proof fn lemma_last_override_wins(
    d: Seq<(Seq<char>, LeafS)>,
    ovs: Seq<Seq<char>>,
    k: Seq<char>,
    v: Seq<char>,
)
    requires
        ovs.len() > 0,
        split_spec(ovs.last()) == Some((k, v)),
        apply_overrides_spec(d, ovs) is Some,
    ensures
        apply_overrides_spec(d, ovs) matches Some(d2) && lookup(d2, k) == Some(coerce_spec(v)),
{
    let prev = apply_overrides_spec(d, ovs.drop_last());
    match prev {
        Some(d1) => {
            crate::value::lemma_override_wins(d1, k, coerce_spec(v));
        },
        None => {},
    }
}

/// An override wins whatever stood in the files: if the override at
/// `idx` names `k` and no later override touches a conflicting path, the
/// final document carries its coerced value at `k`, regardless of where
/// the overrides stand relative to the file layers.
pub proof fn lemma_override_precedence(
    d: Seq<(Seq<char>, LeafS)>,
    ovs: Seq<Seq<char>>,
    idx: int,
    k: Seq<char>,
    v: Seq<char>,
)
    requires
        0 <= idx < ovs.len(),
        split_spec(ovs[idx]) == Some((k, v)),
        forall|j: int|
            idx < j < ovs.len() ==> (#[trigger] split_spec(ovs[j]) matches Some(kv)
                && !crate::value::conflicts(kv.0, k)),
        apply_overrides_spec(d, ovs) is Some,
    ensures
        apply_overrides_spec(d, ovs) matches Some(d2) && lookup(d2, k) == Some(coerce_spec(v)),
    decreases ovs.len(),
{
    if idx == ovs.len() - 1 {
        lemma_last_override_wins(d, ovs, k, v);
    } else {
        let shorter = ovs.drop_last();
        let prev = apply_overrides_spec(d, shorter);
        assert(prev is Some);
        assert(shorter[idx] == ovs[idx]);
        assert(forall|j: int|
            idx < j < shorter.len() ==> (#[trigger] split_spec(shorter[j]) matches Some(kv)
                && !crate::value::conflicts(kv.0, k)));
        lemma_override_precedence(d, shorter, idx, k, v);
        assert(split_spec(ovs.last()) matches Some(kv) && !crate::value::conflicts(kv.0, k));
        match (prev, split_spec(ovs.last())) {
            (Some(d1), Some(kv)) => {
                crate::value::lemma_set_lookup_other(d1, kv.0, coerce_spec(kv.1), k);
            },
            _ => {
                assert(false);
            },
        }
    }
}

proof fn lemma_apply_none_extends(d: Seq<(Seq<char>, LeafS)>, ovs: Seq<Seq<char>>, i: int)
    requires
        0 <= i <= ovs.len(),
        apply_overrides_spec(d, ovs.take(i)) is None,
    ensures
        apply_overrides_spec(d, ovs) is None,
    decreases ovs.len() - i,
{
    if i < ovs.len() {
        assert(ovs.take(i + 1).drop_last() =~= ovs.take(i));
        assert(apply_overrides_spec(d, ovs.take(i + 1)) is None);
        lemma_apply_none_extends(d, ovs, i + 1);
    } else {
        assert(ovs.take(i) =~= ovs);
    }
}

impl Settings {
    /// Resolve the settings from the four source texts and the overrides,
    /// merged in that order of precedence; the first invalid step yields
    /// its error.
    #[verifier::loop_isolation(false)]
    pub fn new(sources: &Sources, overrides: &Vec<String>) -> (r: Result<Settings, Error>)
        ensures
            match r {
                Ok(s) => resolve_spec(sources@, overrides_view(overrides@)) == Ok::<
                    SettingsV,
                    ErrorKind,
                >(s@),
                Err(e) => resolve_spec(sources@, overrides_view(overrides@)) == Err::<
                    SettingsV,
                    ErrorKind,
                >(e.kind()),
            },
    {
        let base = match &sources.default_toml {
            None => ResolvedConfig::empty(),
            Some(t) => match parse_toml_flat(t.as_str()) {
                Some(d) => d,
                None => {
                    return Err(
                        Error::ConfigMerge { msg: "cannot parse the default layer".to_owned() },
                    );
                },
            },
        };
        let mode_doc = match &sources.mode_toml {
            None => {
                return Err(
                    Error::ConfigMerge { msg: "the run-mode file is required".to_owned() },
                );
            },
            Some(t) => match parse_toml_flat(t.as_str()) {
                Some(d) => d,
                None => {
                    return Err(
                        Error::ConfigMerge { msg: "cannot parse the run-mode file".to_owned() },
                    );
                },
            },
        };
        let mappings_doc = match &sources.mappings_json {
            None => {
                return Err(
                    Error::ConfigMerge { msg: "the mappings file is required".to_owned() },
                );
            },
            Some(t) => match parse_json_flat(t.as_str()) {
                Some(d) => d,
                None => {
                    return Err(
                        Error::ConfigMerge { msg: "cannot parse the mappings file".to_owned() },
                    );
                },
            },
        };
        let settings_doc = match &sources.settings_json {
            None => {
                return Err(
                    Error::ConfigMerge { msg: "the settings file is required".to_owned() },
                );
            },
            Some(t) => match parse_json_flat(t.as_str()) {
                Some(d) => d,
                None => {
                    return Err(
                        Error::ConfigMerge { msg: "cannot parse the settings file".to_owned() },
                    );
                },
            },
        };
        let merged = base.merge(&mode_doc).merge(&mappings_doc).merge(&settings_doc);
        let ghost merged0 = merged@;
        let ghost ov = overrides_view(overrides@);
        let mut cur = merged;
        let mut i: usize = 0;
        while i < overrides.len()
            invariant
                i <= overrides.len(),
                ov == overrides_view(overrides@),
                apply_overrides_spec(merged0, ov.take(i as int)) == Some(cur@),
            decreases overrides.len() - i,
        {
            proof {
                assert(ov.take(i as int + 1).drop_last() =~= ov.take(i as int));
                assert(ov.take(i as int + 1).last() == overrides@[i as int]@);
            }
            let kv = match split_override(overrides[i].as_str()) {
                Some(kv) => kv,
                None => {
                    proof {
                        assert(split_spec(overrides@[i as int]@) is None);
                        assert(apply_overrides_spec(merged0, ov.take(i as int + 1)) is None);
                        lemma_apply_none_extends(merged0, ov, i as int + 1);
                    }
                    return Err(
                        Error::OverrideMalformed {
                            msg: "an override must be a single key=value pair".to_owned(),
                        },
                    );
                },
            };
            let leaf = coerce_override(kv.1.as_str());
            cur = cur.set_path(kv.0.as_str(), leaf);
            i += 1;
        }
        proof {
            assert(ov.take(overrides.len() as int) =~= ov);
        }
        extract(&cur)
    }
}

} // verus!
