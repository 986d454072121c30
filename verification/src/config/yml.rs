//! Configuration from a YAML targets file.
use crate::config::env::{first_value, value_of, Environment};
use crate::config::{target_views, Config, ConfigView, LoadError, Target, TargetView};
use crate::text;
use serde_yaml::Value;
use vstd::prelude::*;

verus! {

/// A YAML value of any kind.
#[verifier::external_type_specification]
#[verifier::external_body]
pub struct ExValue(Value);

/// The document that a text holds, as `serde_yaml::from_str` reads it; where it holds none, the
/// text of the error.
pub uninterp spec fn yaml_document(content: Seq<char>) -> Result<Value, Seq<char>>;

/// `serde_yaml::from_str` into a `Value`, with an error taken by its text: the document that the
/// text holds, or why it holds none, under the name `yaml_document`.
#[verifier::external_body]
fn read_document(content: &str) -> (r: Result<Value, String>)
    ensures
        match r {
            Ok(value) => yaml_document(content@) == Ok::<Value, Seq<char>>(value),
            Err(cause) => yaml_document(content@) == Err::<Value, Seq<char>>(cause@),
        },
{
    serde_yaml::from_str(content).map_err(|e| e.to_string())
}

/// The integer that a value holds, as `Value::as_i64` gives it.
pub uninterp spec fn yaml_integer(value: Value) -> Option<i64>;

/// `Value::as_i64`: the value as an integer, if it is one and fits, under the name `yaml_integer`.
#[verifier::external_body]
fn integer_of(value: &Value) -> (r: Option<i64>)
    ensures
        r == yaml_integer(*value),
{
    value.as_i64()
}

/// The text that a value holds, as `Value::as_str` gives it.
pub uninterp spec fn yaml_text(value: Value) -> Option<Seq<char>>;

/// `Value::as_str`: the value as a text, if it is one, under the name `yaml_text`.
#[verifier::external_body]
fn text_in(value: &Value) -> (r: Option<String>)
    ensures
        text::text_of(r) == yaml_text(*value),
{
    value.as_str().map(str::to_string)
}

/// The entries of a mapping in document order, as `Value::as_mapping` gives them; `None` for a
/// value that is no mapping.
pub uninterp spec fn yaml_entries(value: Value) -> Option<Seq<(Value, Value)>>;

/// `Value::as_mapping`, with the entries copied out in the mapping's order, under the name
/// `yaml_entries`.
#[verifier::external_body]
fn entries_of(value: &Value) -> (r: Option<Vec<(Value, Value)>>)
    ensures
        r matches Some(v) ==> yaml_entries(*value) == Some(v@),
        r is None ==> yaml_entries(*value) is None,
{
    value.as_mapping().map(|m| m.iter().map(|(k, v)| (k.clone(), v.clone())).collect())
}

/// An entry of the targets file: the address, and the value that describes the target.
pub struct TargetEntry {
    pub addr: String,
    pub value: Value,
}

/// What the file says of a target, field by field.
pub struct TargetRaw {
    pub weight: Option<Value>,
    pub ca: Option<String>,
    pub cert: Option<String>,
    pub key: Option<String>,
}

/// A target of the file: its address and what the file says of it; `None` where its value does not
/// have the fields of a target.
pub struct RawEntry {
    pub addr: String,
    pub raw: Option<TargetRaw>,
}

/// The weight that an integer stands for: none unless positive, and at most the maximum.
pub open spec fn clamped_weight(n: Option<i64>) -> Option<u32> {
    match n {
        Some(n) => if n <= 0 {
            None
        } else if n > Target::MAX_WEIGHT {
            Some(Target::MAX_WEIGHT)
        } else {
            Some(n as u32)
        },
        None => None,
    }
}

/// The weight that an optional value stands for.
pub open spec fn weight_of(raw: Option<Value>) -> Option<u32> {
    match raw {
        Some(value) => clamped_weight(yaml_integer(value)),
        None => None,
    }
}

/// The variables that can give the path of the targets file, by priority.
pub open spec fn targets_file_keys() -> Seq<Seq<char>> {
    seq!["NAUTROUDS_TARGETS_FILE"@, "TARGETS_FILE"@, "TARGETS"@]
}

/// The address that the text of a key stands for: the text, trimmed, unless nothing is left.
pub open spec fn address_in(key: Option<Seq<char>>) -> Option<Seq<char>> {
    match key {
        Some(t) => if text::trimmed(t).len() > 0 {
            Some(text::trimmed(t))
        } else {
            None
        },
        None => None,
    }
}

/// The address that a key of the file stands for.
pub open spec fn address_of(key: Value) -> Option<Seq<char>> {
    address_in(yaml_text(key))
}

/// The addresses and values of those entries whose key stands for an address.
pub open spec fn addressed(entries: Seq<(Value, Value)>) -> Seq<(Seq<char>, Value)>
    decreases entries.len(),
{
    if entries.len() == 0 {
        Seq::empty()
    } else {
        match address_of(entries.last().0) {
            Some(addr) => addressed(entries.drop_last()).push((addr, entries.last().1)),
            None => addressed(entries.drop_last()),
        }
    }
}

/// The addresses and values of a list of entries.
pub open spec fn entry_views(v: Seq<TargetEntry>) -> Seq<(Seq<char>, Value)> {
    v.map_values(|e: TargetEntry| (e.addr@, e.value))
}

/// The target that an entry of the file describes.
pub open spec fn described(entry: RawEntry) -> TargetView {
    match entry.raw {
        Some(raw) => TargetView {
            addr: entry.addr@,
            weight: weight_of(raw.weight),
            ca: text::text_of(raw.ca),
            cert: text::text_of(raw.cert),
            key: text::text_of(raw.key),
        },
        None => TargetView::plain(entry.addr@),
    }
}

/// The targets that the entries of the file describe.
pub open spec fn described_targets(entries: Seq<RawEntry>) -> Seq<TargetView> {
    entries.map_values(|e: RawEntry| described(e))
}

/// The path of the targets file, from the first variable that gives one.
pub fn targets_file_from_env(env: &Environment) -> (r: Option<String>)
    ensures
        text::text_of(r) == first_value(env@, targets_file_keys()),
{
    let keys: Vec<&str> = vec!["NAUTROUDS_TARGETS_FILE", "TARGETS_FILE", "TARGETS"];
    assert(keys@.map_values(|k: &str| k@) == targets_file_keys());
    env.first_var(&keys)
}

/// The weight that an integer stands for.
pub fn clamp_weight(n: Option<i64>) -> (r: Option<u32>)
    ensures
        r == clamped_weight(n),
{
    let n: i64 = match n {
        Some(n) => n,
        None => return None,
    };
    if n <= 0 {
        return None;
    }
    if n > Target::MAX_WEIGHT as i64 {
        return Some(Target::MAX_WEIGHT);
    }
    Some(n as u32)
}

/// The weight that a value of the file stands for: no weight unless it is a positive integer, and
/// at most the maximum.
pub fn parse_weight(_addr: &str, raw: Option<Value>) -> (r: Option<u32>)
    ensures
        r == weight_of(raw),
{
    match raw {
        Some(value) => clamp_weight(integer_of(&value)),
        None => None,
    }
}

/// The entries that a targets file lists; `None` where it is a document but no mapping.
pub fn read_entries(path: &str, content: &str) -> (r: Result<Option<Vec<TargetEntry>>, LoadError>)
    ensures
        match yaml_document(content@) {
            Err(cause) => r matches Err(LoadError::InvalidTargetsFile(p, c)) && p@ == path@ && c@
                == cause,
            Ok(value) => match yaml_entries(value) {
                None => r matches Ok(None),
                Some(entries) => r matches Ok(Some(v)) && entry_views(v@) == addressed(entries),
            },
        },
{
    let value = match read_document(content) {
        Ok(value) => value,
        Err(cause) => return Err(LoadError::InvalidTargetsFile(path.to_owned(), cause)),
    };
    let entries = match entries_of(&value) {
        Some(entries) => entries,
        None => return Ok(None),
    };
    Ok(Some(keep_addressed(entries)))
}

/// The address that the text of a key stands for.
pub fn address_from(key: Option<String>) -> (r: Option<String>)
    ensures
        text::text_of(r) == address_in(text::text_of(key)),
{
    match key {
        Some(t) => {
            let trimmed = text::trim(t.as_str());
            if trimmed.is_empty() {
                None
            } else {
                Some(trimmed.to_owned())
            }
        },
        None => None,
    }
}

/// Those entries whose key stands for an address.
pub fn keep_addressed(entries: Vec<(Value, Value)>) -> (r: Vec<TargetEntry>)
    ensures
        entry_views(r@) == addressed(entries@),
{
    let ghost all = entries@;
    let mut r: Vec<TargetEntry> = Vec::new();
    assert(entry_views(r@) == addressed(all.take(0)));
    for entry in it: entries
        invariant
            it.seq() == all,
            entry_views(r@) == addressed(all.take(it.index() as int)),
    {
        let ghost i = it.index() as int;
        let ghost before = entry_views(r@);
        assert(all.take(i + 1).drop_last() == all.take(i));
        assert(all.take(i + 1).last() == entry);
        if let Some(addr) = address_from(text_in(&entry.0)) {
            let ghost view = (addr@, entry.1);
            r.push(TargetEntry { addr, value: entry.1 });
            assert(entry_views(r@) == before.push(view));
        }
    }
    assert(all.take(all.len() as int) == all);
    r
}

/// Whether `raws` are the given entries, each with its value decoded by `decode`.
pub open spec fn decoded<D: Fn(Value) -> Option<TargetRaw>>(
    decode: D,
    entries: Seq<(Seq<char>, Value)>,
    raws: Seq<RawEntry>,
) -> bool {
    &&& raws.len() == entries.len()
    &&& forall|i: int|
        0 <= i < raws.len() ==> (#[trigger] raws[i]).addr@ == entries[i].0 && call_ensures(
            decode,
            (entries[i].1,),
            raws[i].raw,
        )
}

/// The entries with their values decoded.
pub fn decode_entries<D: Fn(Value) -> Option<TargetRaw>>(
    entries: Vec<TargetEntry>,
    decode: D,
) -> (r: Vec<RawEntry>)
    requires
        forall|v: Value| call_requires(decode, (v,)),
    ensures
        decoded(decode, entry_views(entries@), r@),
{
    let ghost all = entry_views(entries@);
    let mut r: Vec<RawEntry> = Vec::new();
    for entry in it: entries
        invariant
            forall|v: Value| call_requires(decode, (v,)),
            all == entry_views(it.seq()),
            decoded(decode, all.take(it.index() as int), r@),
    {
        let ghost i = it.index() as int;
        assert(all[i] == (entry.addr@, entry.value));
        let TargetEntry { addr, value } = entry;
        let raw = decode(value);
        r.push(RawEntry { addr, raw });
        assert(decoded(decode, all.take(i + 1), r@));
    }
    assert(all.take(all.len() as int) == all);
    r
}

/// The configuration with the targets that the entries of a file describe in place of its own.
pub fn replace_targets(cfg: Config, entries: Vec<RawEntry>) -> (r: Config)
    ensures
        r@ == (ConfigView { targets: described_targets(entries@), ..cfg@ }),
{
    let ghost all = entries@;
    let mut targets: Vec<Target> = Vec::new();
    assert(target_views(targets@) == described_targets(all.take(0)));
    for entry in it: entries
        invariant
            it.seq() == all,
            target_views(targets@) == described_targets(all.take(it.index() as int)),
    {
        let ghost i = it.index() as int;
        let ghost before = target_views(targets@);
        let ghost source = entry;
        let RawEntry { addr, raw } = entry;
        let target = match raw {
            Some(raw) => {
                let weight: Option<u32> = parse_weight(addr.as_str(), raw.weight);
                Target { addr, weight, ca: raw.ca, cert: raw.cert, key: raw.key }
            },
            None => Target::from(addr),
        };
        let ghost view = target@;
        targets.push(target);
        proof {
            assert(view == described(source));
            assert(target_views(targets@) == before.push(view));
            assert(all.take(i + 1) == all.take(i).push(source));
            assert(described_targets(all.take(i + 1)) == described_targets(all.take(i)).push(
                described(source),
            ));
        }
    }
    assert(all.take(all.len() as int) == all);
    Config { targets, ..cfg }
}

/// The configuration with the targets of a targets file in place of its own. A document that is no
/// mapping leaves the configuration as it is. `decode` reads the fields of a target from its value;
/// a value that does not have them describes a target of which only the address is known.
pub fn load<D: Fn(Value) -> Option<TargetRaw>>(
    cfg: Config,
    path: &str,
    content: &str,
    decode: D,
) -> (r: Result<Config, LoadError>)
    requires
        forall|v: Value| call_requires(decode, (v,)),
    ensures
        match yaml_document(content@) {
            Err(cause) => r matches Err(LoadError::InvalidTargetsFile(p, c)) && p@ == path@ && c@
                == cause,
            Ok(value) => match yaml_entries(value) {
                None => r matches Ok(new) && new@ == cfg@,
                Some(entries) => r matches Ok(new) && exists|raws: Seq<RawEntry>|
                    {
                        &&& #[trigger] decoded(decode, addressed(entries), raws)
                        &&& new@ == (ConfigView { targets: described_targets(raws), ..cfg@ })
                    },
            },
        },
{
    match read_entries(path, content) {
        Err(e) => Err(e),
        Ok(None) => Ok(cfg),
        Ok(Some(entries)) => Ok(replace_targets(cfg, decode_entries(entries, decode))),
    }
}

/// Every target that a file describes has a weight in range.
pub proof fn described_weights_are_in_range(entries: Seq<RawEntry>)
    ensures
        forall|i: int|
            0 <= i < described_targets(entries).len() ==> (
            #[trigger] described_targets(entries)[i]).has_weight_in_range(),
{
}

/// A file gives one target for each entry whose key stands for an address, in order, and no others.
pub proof fn file_lists_its_addresses<D: Fn(Value) -> Option<TargetRaw>>(
    decode: D,
    entries: Seq<(Value, Value)>,
    raws: Seq<RawEntry>,
)
    requires
        decoded(decode, addressed(entries), raws),
    ensures
        described_targets(raws).len() == addressed(entries).len(),
        forall|i: int|
            0 <= i < addressed(entries).len() ==> (#[trigger] described_targets(raws)[i]).addr
                == addressed(entries)[i].0,
{
    assert forall|i: int| 0 <= i < addressed(entries).len() implies (
    #[trigger] described_targets(raws)[i]).addr == addressed(entries)[i].0 by {
        assert(raws[i].addr@ == addressed(entries)[i].0);
    }
}

/// An integer from 1 to the maximum is the weight itself, a larger one gives the maximum, and
/// anything else gives no weight. The maximum is 100.
pub proof fn weights_are_clamped(n: i64)
    ensures
        Target::MAX_WEIGHT == 100,
        1 <= n <= 100 ==> clamped_weight(Some(n)) == Some(n as u32),
        n > 100 ==> clamped_weight(Some(n)) == Some(100u32),
        n < 1 ==> clamped_weight(Some(n)) is None,
        clamped_weight(None) is None,
{
}

/// What an entry of the file says of a target holds of the target that is loaded: its address, its
/// weight, and each of its TLS files, independently of one another. An entry without fields gives a
/// target of which only the address is known. All else of the configuration stays as it was.
pub proof fn entries_are_taken_over(before: ConfigView, raws: Seq<RawEntry>, loaded: Config)
    requires
        loaded@ == (ConfigView { targets: described_targets(raws), ..before }),
    ensures
        loaded.service_name@ == before.service_name,
        loaded.base_dir@ == before.base_dir,
        loaded.max_connections == before.max_connections,
        loaded.metrics_interval_secs == before.metrics_interval_secs,
        loaded.targets@.len() == raws.len(),
        forall|i: int|
            0 <= i < raws.len() ==> {
                let target = #[trigger] loaded.targets@[i];
                &&& target.addr@ == raws[i].addr@
                &&& match raws[i].raw {
                    Some(raw) => {
                        &&& target.ca is Some == raw.ca is Some
                        &&& target.ca is Some ==> target.ca->0@ == raw.ca->0@
                        &&& target.cert is Some == raw.cert is Some
                        &&& target.cert is Some ==> target.cert->0@ == raw.cert->0@
                        &&& target.key is Some == raw.key is Some
                        &&& target.key is Some ==> target.key->0@ == raw.key->0@
                        &&& target.weight == (match raw.weight {
                            Some(value) => clamped_weight(yaml_integer(value)),
                            None => None,
                        })
                    },
                    None => target.ca is None && target.cert is None && target.key is None
                        && target.weight is None,
                }
            },
{
    assert(loaded@.targets.len() == loaded.targets@.len());
    assert forall|i: int| 0 <= i < raws.len() implies {
        let target = #[trigger] loaded.targets@[i];
        &&& target.addr@ == raws[i].addr@
        &&& match raws[i].raw {
            Some(raw) => {
                &&& target.ca is Some == raw.ca is Some
                &&& target.ca is Some ==> target.ca->0@ == raw.ca->0@
                &&& target.cert is Some == raw.cert is Some
                &&& target.cert is Some ==> target.cert->0@ == raw.cert->0@
                &&& target.key is Some == raw.key is Some
                &&& target.key is Some ==> target.key->0@ == raw.key->0@
                &&& target.weight == (match raw.weight {
                    Some(value) => clamped_weight(yaml_integer(value)),
                    None => None,
                })
            },
            None => target.ca is None && target.cert is None && target.key is None
                && target.weight is None,
        }
    } by {
        assert(loaded@.targets[i] == loaded.targets@[i]@);
        assert(described_targets(raws)[i] == described(raws[i]));
    }
}

/// The entries of a file are looked at one by one and in order: what a list of entries gives is what
/// its beginning gives, followed by what its end gives. An entry whose key is a text that is more
/// than white space gives the trimmed text with the entry's value, and any other entry gives
/// nothing.
pub proof fn entries_are_taken_one_by_one(
    a: Seq<(Value, Value)>,
    b: Seq<(Value, Value)>,
    key: Value,
    value: Value,
)
    ensures
        addressed(a + b) == addressed(a) + addressed(b),
        addressed(seq![(key, value)]) == (match yaml_text(key) {
            Some(t) => if text::trimmed(t).len() > 0 {
                seq![(text::trimmed(t), value)]
            } else {
                Seq::empty()
            },
            None => Seq::empty(),
        }),
    decreases b.len(),
{
    let one = seq![(key, value)];
    reveal_with_fuel(addressed, 2);
    assert(one.drop_last() == Seq::<(Value, Value)>::empty());
    assert(addressed(one) =~= (match yaml_text(key) {
        Some(t) => if text::trimmed(t).len() > 0 {
            seq![(text::trimmed(t), value)]
        } else {
            Seq::empty()
        },
        None => Seq::empty(),
    }));
    if b.len() == 0 {
        assert(a + b == a);
    } else {
        entries_are_taken_one_by_one(a, b.drop_last(), key, value);
        assert((a + b).drop_last() == a + b.drop_last());
        assert((a + b).last() == b.last());
    }
    assert(addressed(a + b) =~= addressed(a) + addressed(b));
}

/// The variables that give the path of the targets file, by priority.
pub proof fn targets_file_by_priority(vars: Seq<(Seq<char>, Seq<char>)>)
    ensures
        first_value(vars, targets_file_keys()) == (if value_of(
            vars,
            "NAUTROUDS_TARGETS_FILE"@,
        ) is Some {
            value_of(vars, "NAUTROUDS_TARGETS_FILE"@)
        } else if value_of(vars, "TARGETS_FILE"@) is Some {
            value_of(vars, "TARGETS_FILE"@)
        } else {
            value_of(vars, "TARGETS"@)
        }),
{
    reveal_with_fuel(first_value, 4);
    let s = targets_file_keys();
    assert(s.skip(1).skip(1) == s.skip(2));
    assert(s.skip(2).skip(1) == s.skip(3));
}

/// The value of every entry is decoded: what the file says of a target is what `decode` makes of the
/// value beside its key.
pub proof fn values_are_decoded<D: Fn(Value) -> Option<TargetRaw>>(
    decode: D,
    entries: Seq<(Value, Value)>,
    raws: Seq<RawEntry>,
    i: int,
)
    requires
        decoded(decode, addressed(entries), raws),
        0 <= i < raws.len(),
    ensures
        raws.len() == addressed(entries).len(),
        raws[i].addr@ == addressed(entries)[i].0,
        call_ensures(decode, (addressed(entries)[i].1,), raws[i].raw),
{
}

} // verus!
