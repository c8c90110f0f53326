//! Reading the settings that a tenant overrides from its config file, which
//! is written in TOML.

use crate::tenant_conf::TenantConfOpt;
use vstd::prelude::*;
use vstd::string::StringSliceAdditionalSpecFns;

verus! {

/// A parsed TOML document, as `toml_edit` holds it.
#[verifier::external_type_specification]
#[verifier::external_body]
pub struct ExDocument(toml_edit::Document);

/// A value of a table in a document, as far as its kind is of interest.
#[derive(Clone, Copy, Debug, PartialEq, Eq, Structural)]
pub enum Setting {
    Integer(i64),
    Bool(bool),
    /// Something that is neither an integer nor a boolean.
    Other,
}

/// The keys of the root table of a document, in the order of the document;
/// none where the root of the document is no table.
pub uninterp spec fn document_keys(doc: toml_edit::Document) -> Seq<Seq<char>>;

/// What the tables of a document hold: the value under each pair of a key
/// of the root table and a key of the table that it names. A document whose
/// root is no table holds nothing.
pub uninterp spec fn document_settings(doc: toml_edit::Document) -> Map<
    (Seq<char>, Seq<char>),
    Setting,
>;

/// What a text spells, if the text is TOML: the keys of the root table and
/// what the tables hold.
pub uninterp spec fn parsed_text(text: Seq<char>) -> Option<
    (Seq<Seq<char>>, Map<(Seq<char>, Seq<char>), Setting>),
>;

/// `str::parse::<toml_edit::Document>`: the document that the text spells,
/// if it is TOML. The parser reads nothing but the text, so the same text
/// gives a document with the same keys and the same values.
#[verifier::external_body]
fn parse_document(text: &str) -> (r: Option<toml_edit::Document>)
    ensures
        match parsed_text(text@) {
            None => r is None,
            Some((keys, settings)) => r is Some && document_keys(r.unwrap()) == keys
                && document_settings(r.unwrap()) == settings,
        },
{
    match text.parse::<toml_edit::Document>() {
        Ok(doc) => Some(doc),
        Err(_) => None,
    }
}

/// `Document::as_item`, `Item::as_table` and `Table::iter`: the keys of the
/// root table, in the order in which the iterator yields them; none where
/// the root is no table.
#[verifier::external_body]
fn root_keys(doc: &toml_edit::Document) -> (r: Vec<String>)
    ensures
        r@.len() == document_keys(*doc).len(),
        forall|i: int| 0 <= i < r@.len() ==> (#[trigger] r@[i])@ == document_keys(*doc)[i],
{
    match doc.as_item().as_table() {
        Some(root) => root.iter().map(|(key, _)| key.to_string()).collect(),
        None => Vec::new(),
    }
}

/// `Document::as_item` and `Item::as_table`, `Table::get` on the root table,
/// `Item::get` on what it gives, then `Item::as_integer` and
/// `Item::as_bool`: the value that the document holds under `key` of the
/// table `table`, if it holds one.
#[verifier::external_body]
fn table_setting(doc: &toml_edit::Document, table: &str, key: &str) -> (r: Option<Setting>)
    ensures
        r == (if document_settings(*doc).contains_key((table@, key@)) {
            Some(document_settings(*doc)[(table@, key@)])
        } else {
            None
        }),
{
    let root = doc.as_item().as_table();
    match root.and_then(|t| t.get(table)).and_then(|item| item.get(key)) {
        None => None,
        Some(item) => match (item.as_integer(), item.as_bool()) {
            (Some(i), _) => Some(Setting::Integer(i)),
            (None, Some(b)) => Some(Setting::Bool(b)),
            (None, None) => Some(Setting::Other),
        },
    }
}

/// What `settings` holds under `key` of the table `tenant_config`.
pub open spec fn setting_in(
    settings: Map<(Seq<char>, Seq<char>), Setting>,
    key: Seq<char>,
) -> Option<Setting> {
    if settings.contains_key(("tenant_config"@, key)) {
        Some(settings[("tenant_config"@, key)])
    } else {
        None
    }
}

/// What the document holds under `key` of its table `tenant_config`.
pub open spec fn tenant_setting_of(doc: toml_edit::Document, key: Seq<char>) -> Option<Setting> {
    setting_in(document_settings(doc), key)
}

/// What the document holds under `key` of its table `tenant_config`.
fn tenant_setting(doc: &toml_edit::Document, key: &str) -> (r: Option<Setting>)
    ensures
        r == tenant_setting_of(*doc, key@),
{
    table_setting(doc, "tenant_config", key)
}

/// Why a config file could not be read.
#[derive(Debug)]
pub enum ConfigError {
    /// The text is not TOML.
    NotToml,
    /// The root table has a key other than `tenant_config`.
    UnrecognizedOption(String),
    /// The setting of this name is not of the kind it has to be, or is a
    /// negative number, or a number too large for the machine.
    BadSetting(SettingName),
}

/// The settings that are read from a config file.
#[derive(Clone, Copy, Debug, PartialEq, Eq, Structural)]
pub enum SettingName {
    CheckpointDistance,
    CompactionTargetSize,
    CompactionThreshold,
    GcHorizon,
    ImageCreationThreshold,
    TraceReadRequests,
    MinResidentSizeOverride,
}

/// A number that has to be zero or more: absent, good, or bad.
pub open spec fn as_u64(s: Option<Setting>) -> Result<Option<u64>, ()> {
    match s {
        None => Ok(None),
        Some(Setting::Integer(i)) => if i >= 0 {
            Ok(Some(i as u64))
        } else {
            Err(())
        },
        _ => Err(()),
    }
}

/// A number that has to be zero or more and fit the machine: absent, good,
/// or bad.
pub open spec fn as_usize(s: Option<Setting>) -> Result<Option<usize>, ()> {
    match s {
        None => Ok(None),
        Some(Setting::Integer(i)) => if 0 <= i <= usize::MAX {
            Ok(Some(i as usize))
        } else {
            Err(())
        },
        _ => Err(()),
    }
}

/// A boolean: absent, good, or bad.
pub open spec fn as_flag(s: Option<Setting>) -> Result<Option<bool>, ()> {
    match s {
        None => Ok(None),
        Some(Setting::Bool(b)) => Ok(Some(b)),
        _ => Err(()),
    }
}

fn to_u64(s: Option<Setting>) -> (r: Result<Option<u64>, ()>)
    ensures
        r == as_u64(s),
{
    match s {
        None => Ok(None),
        Some(Setting::Integer(i)) => if i >= 0 {
            Ok(Some(i as u64))
        } else {
            Err(())
        },
        _ => Err(()),
    }
}

fn to_usize(s: Option<Setting>) -> (r: Result<Option<usize>, ()>)
    ensures
        r == as_usize(s),
{
    match s {
        None => Ok(None),
        Some(Setting::Integer(i)) => if i >= 0 && i as u64 <= usize::MAX as u64 {
            Ok(Some(i as usize))
        } else {
            Err(())
        },
        _ => Err(()),
    }
}

fn to_flag(s: Option<Setting>) -> (r: Result<Option<bool>, ()>)
    ensures
        r == as_flag(s),
{
    match s {
        None => Ok(None),
        Some(Setting::Bool(b)) => Ok(Some(b)),
        _ => Err(()),
    }
}

/// Whether the bytes `a` and `b` are the same.
fn same_bytes(a: &[u8], b: &[u8]) -> (r: bool)
    ensures
        r == (a@ == b@),
{
    if a.len() != b.len() {
        return false;
    }
    let mut i: usize = 0;
    while i < a.len()
        invariant
            0 <= i <= a@.len(),
            a@.len() == b@.len(),
            forall|k: int| 0 <= k < i ==> a@[k] == b@[k],
        decreases a@.len() - i,
    {
        if a[i] != b[i] {
            return false;
        }
        i += 1;
    }
    proof {
        assert(a@ =~= b@);
    }
    true
}

/// The place of the first key that is not `tenant_config`, if there is one.
pub open spec fn first_unrecognized(keys: Seq<Seq<char>>) -> Option<int>
    decreases keys.len(),
{
    if keys.len() == 0 {
        None
    } else {
        match first_unrecognized(keys.drop_last()) {
            Some(i) => Some(i),
            None => if keys.last() == "tenant_config"@ {
                None
            } else {
                Some(keys.len() - 1)
            },
        }
    }
}

/// The settings that are overridden where the tables hold `settings`, by
/// the kind of value that there is for each; or the first setting whose
/// value is bad.
pub open spec fn settings_from(settings: Map<(Seq<char>, Seq<char>), Setting>) -> Result<
    TenantConfOpt,
    SettingName,
> {
    let checkpoint_distance = as_u64(setting_in(settings, "checkpoint_distance"@));
    let compaction_target_size = as_u64(setting_in(settings, "compaction_target_size"@));
    let compaction_threshold = as_usize(setting_in(settings, "compaction_threshold"@));
    let gc_horizon = as_u64(setting_in(settings, "gc_horizon"@));
    let image_creation_threshold = as_usize(setting_in(settings, "image_creation_threshold"@));
    let trace_read_requests = as_flag(setting_in(settings, "trace_read_requests"@));
    let min_resident_size_override = as_u64(setting_in(settings, "min_resident_size_override"@));
    if checkpoint_distance is Err {
        Err(SettingName::CheckpointDistance)
    } else if compaction_target_size is Err {
        Err(SettingName::CompactionTargetSize)
    } else if compaction_threshold is Err {
        Err(SettingName::CompactionThreshold)
    } else if gc_horizon is Err {
        Err(SettingName::GcHorizon)
    } else if image_creation_threshold is Err {
        Err(SettingName::ImageCreationThreshold)
    } else if trace_read_requests is Err {
        Err(SettingName::TraceReadRequests)
    } else if min_resident_size_override is Err {
        Err(SettingName::MinResidentSizeOverride)
    } else {
        Ok(
            TenantConfOpt {
                checkpoint_distance: checkpoint_distance.unwrap(),
                checkpoint_timeout: None,
                compaction_target_size: compaction_target_size.unwrap(),
                compaction_period: None,
                compaction_threshold: compaction_threshold.unwrap(),
                gc_horizon: gc_horizon.unwrap(),
                gc_period: None,
                image_creation_threshold: image_creation_threshold.unwrap(),
                pitr_interval: None,
                trace_read_requests: trace_read_requests.unwrap(),
                min_resident_size_override: min_resident_size_override.unwrap(),
            },
        )
    }
}

/// The settings that the document `doc` overrides, or the first setting
/// whose value is bad.
pub open spec fn settings_of(doc: toml_edit::Document) -> Result<TenantConfOpt, SettingName> {
    settings_from(document_settings(doc))
}

/// `r` is what a document with the root keys `keys` and the values
/// `settings` says about the settings of a tenant: the first key of the
/// root table that is not `tenant_config` is an error; else `r` holds the
/// settings that are overridden, or names the first setting whose value is
/// bad.
pub open spec fn is_conf(
    keys: Seq<Seq<char>>,
    settings: Map<(Seq<char>, Seq<char>), Setting>,
    r: Result<TenantConfOpt, ConfigError>,
) -> bool {
    match first_unrecognized(keys) {
        Some(at) => {
            &&& 0 <= at < keys.len()
            &&& r matches Err(ConfigError::UnrecognizedOption(key))
            &&& r->Err_0->UnrecognizedOption_0@ == keys[at]
        },
        None => match settings_from(settings) {
            Ok(conf) => r matches Ok(c) && c == conf,
            Err(name) => r matches Err(ConfigError::BadSetting(n)) && n == name,
        },
    }
}

/// `r` is what the document `doc` says about the settings of a tenant.
pub open spec fn is_conf_of(doc: toml_edit::Document, r: Result<TenantConfOpt, ConfigError>)
    -> bool {
    is_conf(document_keys(doc), document_settings(doc), r)
}

/// The settings that a parsed config file overrides.
///
/// The root table may hold nothing but `tenant_config`: the first other key
/// is an error. Of that table the settings that are numbers or booleans are
/// read, each where it is present; a value of the wrong kind, a negative
/// number and a number too large for the machine are errors. The settings
/// that are spans of time are not read here and stay unset.
pub fn tenant_conf_from_document(doc: &toml_edit::Document) -> (r: Result<
    TenantConfOpt,
    ConfigError,
>)
    ensures
        is_conf_of(*doc, r),
{
    let mut keys = root_keys(doc);
    let ghost names = document_keys(*doc);
    let mut i: usize = 0;
    proof {
        assert(names.subrange(0, 0) =~= Seq::<Seq<char>>::empty());
    }
    while i < keys.len()
        invariant
            0 <= i <= keys@.len(),
            names == document_keys(*doc),
            keys@.len() == names.len(),
            forall|k: int| 0 <= k < keys@.len() ==> (#[trigger] keys@[k])@ == names[k],
            first_unrecognized(names.subrange(0, i as int)) is None,
            forall|k: int| 0 <= k < i ==> #[trigger] names[k] == "tenant_config"@,
        decreases keys@.len() - i,
    {
        let ghost next = names.subrange(0, i + 1);
        proof {
            assert(next.drop_last() =~= names.subrange(0, i as int));
            assert(next.last() == names[i as int]);
            assert(keys@[i as int]@ == names[i as int]);
        }
        if !is_tenant_config(keys[i].as_str()) {
            proof {
                assert(first_unrecognized(next) == Some(i as int));
                lemma_first_unrecognized_stays(names, i + 1);
            }
            let key = keys.swap_remove(i);
            return Err(ConfigError::UnrecognizedOption(key));
        }
        i += 1;
    }
    proof {
        assert(names.subrange(0, names.len() as int) =~= names);
    }
    let checkpoint_distance = match to_u64(tenant_setting(doc, "checkpoint_distance")) {
        Ok(v) => v,
        Err(_) => {
            return Err(ConfigError::BadSetting(SettingName::CheckpointDistance));
        },
    };
    let compaction_target_size = match to_u64(tenant_setting(doc, "compaction_target_size")) {
        Ok(v) => v,
        Err(_) => {
            return Err(ConfigError::BadSetting(SettingName::CompactionTargetSize));
        },
    };
    let compaction_threshold = match to_usize(tenant_setting(doc, "compaction_threshold")) {
        Ok(v) => v,
        Err(_) => {
            return Err(ConfigError::BadSetting(SettingName::CompactionThreshold));
        },
    };
    let gc_horizon = match to_u64(tenant_setting(doc, "gc_horizon")) {
        Ok(v) => v,
        Err(_) => {
            return Err(ConfigError::BadSetting(SettingName::GcHorizon));
        },
    };
    let image_creation_threshold = match to_usize(tenant_setting(doc, "image_creation_threshold")) {
        Ok(v) => v,
        Err(_) => {
            return Err(ConfigError::BadSetting(SettingName::ImageCreationThreshold));
        },
    };
    let trace_read_requests = match to_flag(tenant_setting(doc, "trace_read_requests")) {
        Ok(v) => v,
        Err(_) => {
            return Err(ConfigError::BadSetting(SettingName::TraceReadRequests));
        },
    };
    let min_resident_size_override = match to_u64(
        tenant_setting(doc, "min_resident_size_override"),
    ) {
        Ok(v) => v,
        Err(_) => {
            return Err(ConfigError::BadSetting(SettingName::MinResidentSizeOverride));
        },
    };
    Ok(
        TenantConfOpt {
            checkpoint_distance,
            checkpoint_timeout: None,
            compaction_target_size,
            compaction_period: None,
            compaction_threshold,
            gc_horizon,
            gc_period: None,
            image_creation_threshold,
            pitr_interval: None,
            trace_read_requests,
            min_resident_size_override,
        },
    )
}

/// Whether `key` is `tenant_config`.
fn is_tenant_config(key: &str) -> (r: bool)
    ensures
        r == (key@ == "tenant_config"@),
{
    let name: [u8; 13] = [116, 101, 110, 97, 110, 116, 95, 99, 111, 110, 102, 105, 103];
    let literal = "tenant_config";
    proof {
        reveal_strlit("tenant_config");
        vstd::string::is_ascii_spec_bytes(literal);
        assert(literal.spec_bytes() =~= name@);
        vstd::utf8::encode_utf8_decode_utf8(key@);
        vstd::utf8::encode_utf8_decode_utf8(literal@);
    }
    same_bytes(key.as_bytes(), name.as_slice())
}

proof fn lemma_first_unrecognized_stays(keys: Seq<Seq<char>>, n: int)
    requires
        0 <= n <= keys.len(),
        first_unrecognized(keys.subrange(0, n)) is Some,
    ensures
        first_unrecognized(keys) == first_unrecognized(keys.subrange(0, n)),
    decreases keys.len() - n,
{
    if n < keys.len() {
        assert(keys.subrange(0, n + 1).drop_last() =~= keys.subrange(0, n));
        lemma_first_unrecognized_stays(keys, n + 1);
    } else {
        assert(keys.subrange(0, n) =~= keys);
    }
}

/// What reading a config file with the text `config` comes to; no
/// overrides where there is no config file. Text that is not TOML is
/// refused; for text that is, the answer is that for the keys and the
/// values it spells.
pub open spec fn is_conf_of_text(
    config: Option<&str>,
    r: Result<TenantConfOpt, ConfigError>,
) -> bool {
    match config {
        None => r matches Ok(c) && c == TenantConfOpt::no_overrides(),
        Some(text) => match parsed_text(text@) {
            None => r matches Err(e) && e is NotToml,
            Some((keys, settings)) => is_conf(keys, settings, r),
        },
    }
}

/// The settings that the config file with the text `config` overrides;
/// none where there is no config file.
pub fn load_tenant_config(config: Option<&str>) -> (r: Result<TenantConfOpt, ConfigError>)
    ensures
        is_conf_of_text(config, r),
{
    match config {
        None => Ok(TenantConfOpt::none()),
        Some(text) => match parse_document(text) {
            None => Err(ConfigError::NotToml),
            Some(doc) => tenant_conf_from_document(&doc),
        },
    }
}

} // verus!
