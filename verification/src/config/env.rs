//! Configuration from environment variables.
use crate::config::{target_views, Config, ConfigView, LoadError, Target, TargetView};
use crate::path;
use crate::text;
use vstd::prelude::*;

verus! {

/// The environment variables of a process, in order.
#[derive(Debug, Clone)]
pub struct Environment {
    pub vars: Vec<(String, String)>,
}

impl View for Environment {
    type V = Seq<(Seq<char>, Seq<char>)>;

    open spec fn view(&self) -> Seq<(Seq<char>, Seq<char>)> {
        self.vars@.map_values(|v: (String, String)| (v.0@, v.1@))
    }
}

/// The value of the first variable named `key`.
pub open spec fn value_of(vars: Seq<(Seq<char>, Seq<char>)>, key: Seq<char>) -> Option<Seq<char>>
    decreases vars.len(),
{
    if vars.len() == 0 {
        None
    } else if vars[0].0 == key {
        Some(vars[0].1)
    } else {
        value_of(vars.skip(1), key)
    }
}

/// The value of the first of `keys` that is set.
pub open spec fn first_value(
    vars: Seq<(Seq<char>, Seq<char>)>,
    keys: Seq<Seq<char>>,
) -> Option<Seq<char>>
    decreases keys.len(),
{
    if keys.len() == 0 {
        None
    } else if value_of(vars, keys[0]) is Some {
        value_of(vars, keys[0])
    } else {
        first_value(vars, keys.skip(1))
    }
}

/// The variables that can give the service name, by priority.
pub open spec fn service_name_keys() -> Seq<Seq<char>> {
    seq![
        "NAUTROUDS_SERVICE_NAME"@,
        "NAUTROUDS_SERVICE_ID"@,
        "SERVICE_NAME"@,
        "SERVICE"@,
        "NAME"@,
    ]
}

/// The variables that can give the target addresses, by priority.
pub open spec fn target_addr_keys() -> Seq<Seq<char>> {
    seq!["NAUTROUDS_TARGET_ADDR"@, "TARGET_ADDR"@, "TARGET"@, "ADDR"@]
}

/// `s` without the elements that occurred before in it.
pub open spec fn first_occurrences(s: Seq<Seq<char>>) -> Seq<Seq<char>>
    decreases s.len(),
{
    if s.len() == 0 {
        s
    } else if s.drop_last().contains(s.last()) {
        first_occurrences(s.drop_last())
    } else {
        first_occurrences(s.drop_last()).push(s.last())
    }
}

/// The parts of a comma-separated list, trimmed, without empty ones.
pub open spec fn listed(raw: Seq<char>) -> Seq<Seq<char>> {
    text::split(raw, ',').map_values(|p: Seq<char>| text::trimmed(p)).filter(
        |p: Seq<char>| p.len() > 0,
    )
}

/// The addresses in a comma-separated list, each once.
pub open spec fn listed_addresses(raw: Seq<char>) -> Seq<Seq<char>> {
    first_occurrences(listed(raw))
}

/// The number that `value` spells, or `fallback` where it spells none that is at most `max`.
pub open spec fn number_or(value: Option<Seq<char>>, max: nat, fallback: nat) -> nat {
    match value {
        Some(v) => match text::unsigned(v, max) {
            Some(n) => n,
            None => fallback,
        },
        None => fallback,
    }
}

/// `value`, or `fallback` where there is none.
pub open spec fn value_or(value: Option<Seq<char>>, fallback: Seq<char>) -> Seq<char> {
    match value {
        Some(v) => v,
        None => fallback,
    }
}

/// The configuration that the variables give, apart from its service name.
pub open spec fn configured(
    vars: Seq<(Seq<char>, Seq<char>)>,
    service_name: Seq<char>,
) -> ConfigView {
    ConfigView {
        service_name,
        targets: listed_addresses(value_or(first_value(vars, target_addr_keys()), Seq::empty())).map_values(
            |a: Seq<char>| TargetView::plain(a),
        ),
        base_dir: value_or(
            value_of(vars, "NAUTROUDS_SERVICES_DIR"@),
            "/var/run/nautrouds/services"@,
        ),
        max_connections: number_or(
            value_of(vars, "NAUTROUDS_MAX_CONNS"@),
            usize::MAX as nat,
            1024,
        ) as usize,
        metrics_interval_secs: number_or(
            value_of(vars, "NAUTROUDS_METRICS_INTERVAL_SECS"@),
            u64::MAX as nat,
            15,
        ) as u64,
    }
}

/// Where metrics would go, given the value of `NAUTROUDS_METRICS_SOCKET`: nowhere for `-`, under
/// the base directory otherwise.
pub open spec fn metrics_socket(base_dir: Seq<char>, value: Option<Seq<char>>) -> Option<Seq<char>> {
    match value {
        Some(v) => if v == "-"@ {
            None
        } else if v.len() > 0 {
            Some(path::joined(base_dir, v))
        } else {
            Some(path::joined(base_dir, "metrics.sock"@))
        },
        None => Some(path::joined(base_dir, "metrics.sock"@)),
    }
}

impl Environment {
    /// The value of a variable.
    pub fn var(&self, key: &str) -> (r: Option<String>)
        ensures
            text::text_of(r) == value_of(self@, key@),
    {
        let mut i: usize = 0;
        assert(self@.skip(0) == self@);
        while i < self.vars.len()
            invariant
                i <= self.vars.len(),
                value_of(self@, key@) == value_of(self@.skip(i as int), key@),
            decreases self.vars.len() - i,
        {
            assert(self@.skip(i as int)[0] == (self.vars@[i as int].0@, self.vars@[i as int].1@));
            if text::same(self.vars[i].0.as_str(), key) {
                return Some(self.vars[i].1.clone());
            }
            assert(self@.skip(i as int).skip(1) == self@.skip(i + 1));
            i += 1;
        }
        None
    }

    /// The value of the first of several variables that is set.
    pub fn first_var(&self, keys: &Vec<&str>) -> (r: Option<String>)
        ensures
            text::text_of(r) == first_value(self@, keys@.map_values(|k: &str| k@)),
    {
        let ghost all = keys@.map_values(|k: &str| k@);
        let mut i: usize = 0;
        assert(all.skip(0) == all);
        while i < keys.len()
            invariant
                i <= keys.len(),
                all == keys@.map_values(|k: &str| k@),
                first_value(self@, all) == first_value(self@, all.skip(i as int)),
            decreases keys.len() - i,
        {
            assert(all.skip(i as int)[0] == keys@[i as int]@);
            let value = self.var(keys[i]);
            if value.is_some() {
                return value;
            }
            assert(all.skip(i as int).skip(1) == all.skip(i + 1));
            i += 1;
        }
        None
    }
}

/// The name of the service, from the first variable that gives one.
pub fn service_name_from_env(env: &Environment) -> (r: Option<String>)
    ensures
        text::text_of(r) == first_value(env@, service_name_keys()),
{
    let keys: Vec<&str> = vec![
        "NAUTROUDS_SERVICE_NAME",
        "NAUTROUDS_SERVICE_ID",
        "SERVICE_NAME",
        "SERVICE",
        "NAME",
    ];
    assert(keys@.map_values(|k: &str| k@) == service_name_keys());
    env.first_var(&keys)
}

/// The directory for the pid file, where one is set.
pub fn pid_dir_from_env(env: &Environment) -> (r: Option<String>)
    ensures
        text::text_of(r) == value_of(env@, "NAUTROUDS_PID_DIR"@),
{
    env.var("NAUTROUDS_PID_DIR")
}

/// Where metrics would go, given the value of `NAUTROUDS_METRICS_SOCKET`.
pub fn metrics_socket_path(base_dir: &str, value: Option<String>) -> (r: Option<String>)
    ensures
        text::text_of(r) == metrics_socket(base_dir@, text::text_of(value)),
{
    match value {
        Some(v) => if text::same(v.as_str(), "-") {
            None
        } else if !v.as_str().is_empty() {
            Some(path::join(base_dir, v.as_str()))
        } else {
            Some(path::join(base_dir, "metrics.sock"))
        },
        None => Some(path::join(base_dir, "metrics.sock")),
    }
}

fn contains(v: &Vec<String>, s: &String) -> (r: bool)
    ensures
        r == text::texts(v@).contains(s@),
{
    let mut i: usize = 0;
    while i < v.len()
        invariant
            i <= v.len(),
            forall|j: int| 0 <= j < i ==> (#[trigger] text::texts(v@)[j]) != s@,
        decreases v.len() - i,
    {
        if v[i] == *s {
            assert(text::texts(v@)[i as int] == s@);
            return true;
        }
        i += 1;
    }
    false
}

proof fn occurrences_keep_elements(s: Seq<Seq<char>>, x: Seq<char>)
    ensures
        first_occurrences(s).contains(x) == s.contains(x),
    decreases s.len(),
{
    if s.len() > 0 {
        let front = s.drop_last();
        occurrences_keep_elements(front, x);
        assert(s == front.push(s.last()));
        if s.contains(x) {
            let i = choose|i: int| 0 <= i < s.len() && s[i] == x;
            if i < front.len() {
                assert(front[i] == x);
            }
        }
        if front.contains(x) {
            let i = choose|i: int| 0 <= i < front.len() && front[i] == x;
            assert(s[i] == x);
        }
        let kept = first_occurrences(front);
        if !front.contains(s.last()) {
            let whole = kept.push(s.last());
            assert(whole.last() == s.last());
            if kept.contains(x) {
                let i = choose|i: int| 0 <= i < kept.len() && kept[i] == x;
                assert(whole[i] == x);
            }
            if whole.contains(x) {
                let i = choose|i: int| 0 <= i < whole.len() && whole[i] == x;
                if i < kept.len() {
                    assert(kept[i] == x);
                }
            }
        }
    }
}

/// The addresses in a comma-separated list: trimmed, not empty, each once, in the order in which
/// they first occur.
pub fn parse_addresses(raw: &str) -> (r: Vec<String>)
    ensures
        text::texts(r@) == listed_addresses(raw@),
{
    let parts = text::split_on(raw, ',');
    let ghost trimmed = text::split(raw@, ',').map_values(|p: Seq<char>| text::trimmed(p));
    let ghost keep = |p: Seq<char>| p.len() > 0;
    let mut r: Vec<String> = Vec::new();
    let mut i: usize = 0;
    proof {
        reveal(Seq::filter);
        assert(text::texts(r@) == first_occurrences(trimmed.take(0).filter(keep)));
    }
    while i < parts.len()
        invariant
            i <= parts.len(),
            text::texts(parts@) == text::split(raw@, ','),
            trimmed == text::split(raw@, ',').map_values(|p: Seq<char>| text::trimmed(p)),
            keep == (|p: Seq<char>| p.len() > 0),
            text::texts(r@) == first_occurrences(trimmed.take(i as int).filter(keep)),
        decreases parts.len() - i,
    {
        let part = text::trim(parts[i].as_str());
        let ghost before = trimmed.take(i as int).filter(keep);
        proof {
            reveal(Seq::filter);
            assert(text::texts(parts@)[i as int] == parts@[i as int]@);
            assert(trimmed[i as int] == part@);
            assert(trimmed.take(i + 1).drop_last() == trimmed.take(i as int));
            assert(trimmed.take(i + 1).last() == part@);
            occurrences_keep_elements(before, part@);
        }
        if !part.is_empty() {
            let owned = part.to_owned();
            assert(trimmed.take(i + 1).filter(keep) == before.push(part@));
            assert(before.push(part@).drop_last() == before);
            if !contains(&r, &owned) {
                let ghost old = text::texts(r@);
                r.push(owned);
                assert(text::texts(r@) == old.push(part@));
            }
        }
        i += 1;
    }
    assert(trimmed.take(trimmed.len() as int) == trimmed);
    r
}

fn number_from(value: Option<String>, max: u64, fallback: u64) -> (r: u64)
    requires
        fallback <= max,
    ensures
        r == number_or(text::text_of(value), max as nat, fallback as nat),
        r <= max,
{
    match value {
        Some(v) => match text::parse_unsigned(v.as_str(), max) {
            Some(n) => n,
            None => fallback,
        },
        None => fallback,
    }
}

/// The configuration that the environment gives. Its targets are plain addresses.
pub fn load(env: &Environment) -> (r: Result<Config, LoadError>)
    ensures
        match first_value(env@, service_name_keys()) {
            Some(name) => r matches Ok(cfg) && cfg@ == configured(env@, name),
            None => r matches Err(e) && e is MissingServiceName,
        },
{
    let service_name: String = match service_name_from_env(env) {
        Some(name) => name,
        None => return Err(LoadError::MissingServiceName),
    };
    let base_dir: String = match env.var("NAUTROUDS_SERVICES_DIR") {
        Some(dir) => dir,
        None => "/var/run/nautrouds/services".to_owned(),
    };
    let max_connections: usize = number_from(
        env.var("NAUTROUDS_MAX_CONNS"),
        usize::MAX as u64,
        1024,
    ) as usize;
    let metrics_interval_secs: u64 = number_from(
        env.var("NAUTROUDS_METRICS_INTERVAL_SECS"),
        u64::MAX,
        15,
    );
    let keys: Vec<&str> = vec!["NAUTROUDS_TARGET_ADDR", "TARGET_ADDR", "TARGET", "ADDR"];
    assert(keys@.map_values(|k: &str| k@) == target_addr_keys());
    let raw: String = match env.first_var(&keys) {
        Some(v) => v,
        None => String::new(),
    };
    let addresses = parse_addresses(raw.as_str());
    let ghost wanted = listed_addresses(raw@);
    let mut targets: Vec<Target> = Vec::new();
    let mut i: usize = 0;
    while i < addresses.len()
        invariant
            i <= addresses.len(),
            text::texts(addresses@) == wanted,
            target_views(targets@) == wanted.take(i as int).map_values(
                |a: Seq<char>| TargetView::plain(a),
            ),
        decreases addresses.len() - i,
    {
        let ghost before = target_views(targets@);
        let target = Target::from(addresses[i].clone());
        let ghost view = target@;
        targets.push(target);
        proof {
            assert(text::texts(addresses@)[i as int] == addresses@[i as int]@);
            assert(target_views(targets@) == before.push(view));
            assert(wanted.take(i + 1) == wanted.take(i as int).push(wanted[i as int]));
        }
        i += 1;
    }
    assert(wanted.take(wanted.len() as int) == wanted);
    Ok(Config { service_name, targets, base_dir, max_connections, metrics_interval_secs })
}

/// The addresses in a list are all different, not empty, and have no white space around them; they
/// are the trimmed parts of the list that are not empty.
pub proof fn listed_addresses_are_distinct(raw: Seq<char>)
    ensures
        listed_addresses(raw).no_duplicates(),
        forall|a: Seq<char>|
            listed_addresses(raw).contains(a) <==> #[trigger] listed(raw).contains(a),
        forall|a: Seq<char>| #[trigger]
            listed_addresses(raw).contains(a) ==> a.len() > 0 && text::trimmed(a) == a,
{
    let split = text::split(raw, ',');
    let parts = split.map_values(|p: Seq<char>| text::trimmed(p));
    let keep = |p: Seq<char>| p.len() > 0;
    occurrences_are_distinct(listed(raw));
    assert forall|a: Seq<char>|
        listed_addresses(raw).contains(a) <==> #[trigger] listed(raw).contains(a) by {
        occurrences_keep_elements(listed(raw), a);
    }
    assert forall|a: Seq<char>| #[trigger] listed_addresses(raw).contains(a) implies a.len() > 0
        && text::trimmed(a) == a by {
        occurrences_keep_elements(listed(raw), a);
        let j = choose|j: int| 0 <= j < listed(raw).len() && listed(raw)[j] == a;
        parts.lemma_filter_pred(keep, j);
        parts.lemma_filter_contains_rev(keep, a);
        let i = choose|i: int| 0 <= i < parts.len() && parts[i] == a;
        text::trimming_is_final(split[i]);
    }
}

proof fn occurrences_are_distinct(s: Seq<Seq<char>>)
    ensures
        first_occurrences(s).no_duplicates(),
    decreases s.len(),
{
    if s.len() > 0 {
        occurrences_are_distinct(s.drop_last());
        occurrences_keep_elements(s.drop_last(), s.last());
    }
}

/// The value of a variable is that of the first variable with its name; there is none exactly if no
/// variable has the name.
pub proof fn variables_are_found(vars: Seq<(Seq<char>, Seq<char>)>, key: Seq<char>) -> (i: int)
    ensures
        value_of(vars, key) matches Some(v) ==> 0 <= i < vars.len() && vars[i] == (key, v) && (
        forall|j: int| 0 <= j < i ==> (#[trigger] vars[j]).0 != key),
        value_of(vars, key) is None <==> forall|j: int|
            0 <= j < vars.len() ==> (#[trigger] vars[j]).0 != key,
    decreases vars.len(),
{
    if vars.len() == 0 {
        0
    } else if vars[0].0 == key {
        0
    } else {
        let rest = vars.skip(1);
        let i = variables_are_found(rest, key) + 1;
        assert forall|j: int| 1 <= j < vars.len() implies #[trigger] vars[j] == rest[j - 1] by {}
        if value_of(vars, key) is None {
            assert forall|j: int| 0 <= j < vars.len() implies (#[trigger] vars[j]).0 != key by {
                if j > 0 {
                    assert(rest[j - 1].0 != key);
                }
            }
        }
        if forall|j: int| 0 <= j < vars.len() ==> (#[trigger] vars[j]).0 != key {
            assert forall|j: int| 0 <= j < rest.len() implies (#[trigger] rest[j]).0 != key by {
                assert(vars[j + 1].0 != key);
            }
        }
        if value_of(vars, key) is Some {
            assert forall|j: int| 0 <= j < i implies (#[trigger] vars[j]).0 != key by {
                if j > 0 {
                    assert(rest[j - 1].0 != key);
                }
            }
        }
        i
    }
}

/// Of several variables, the first one that is set counts; there is no value exactly if none is set.
pub proof fn earlier_variables_win(
    vars: Seq<(Seq<char>, Seq<char>)>,
    keys: Seq<Seq<char>>,
    i: int,
)
    requires
        0 <= i < keys.len(),
        value_of(vars, keys[i]) is Some,
        forall|j: int| 0 <= j < i ==> value_of(vars, #[trigger] keys[j]) is None,
    ensures
        first_value(vars, keys) == value_of(vars, keys[i]),
    decreases i,
{
    if i > 0 {
        let rest = keys.skip(1);
        assert(value_of(vars, keys[0]) is None);
        assert(rest[i - 1] == keys[i]);
        assert forall|j: int| 0 <= j < i - 1 implies value_of(vars, #[trigger] rest[j]) is None by {
            assert(rest[j] == keys[j + 1]);
        }
        earlier_variables_win(vars, rest, i - 1);
    }
}

/// The variables that give the service name, and those that give the addresses, each by priority.
pub proof fn variables_by_priority(vars: Seq<(Seq<char>, Seq<char>)>)
    ensures
        first_value(vars, service_name_keys()) == (if value_of(
            vars,
            "NAUTROUDS_SERVICE_NAME"@,
        ) is Some {
            value_of(vars, "NAUTROUDS_SERVICE_NAME"@)
        } else if value_of(vars, "NAUTROUDS_SERVICE_ID"@) is Some {
            value_of(vars, "NAUTROUDS_SERVICE_ID"@)
        } else if value_of(vars, "SERVICE_NAME"@) is Some {
            value_of(vars, "SERVICE_NAME"@)
        } else if value_of(vars, "SERVICE"@) is Some {
            value_of(vars, "SERVICE"@)
        } else {
            value_of(vars, "NAME"@)
        }),
        first_value(vars, target_addr_keys()) == (if value_of(
            vars,
            "NAUTROUDS_TARGET_ADDR"@,
        ) is Some {
            value_of(vars, "NAUTROUDS_TARGET_ADDR"@)
        } else if value_of(vars, "TARGET_ADDR"@) is Some {
            value_of(vars, "TARGET_ADDR"@)
        } else if value_of(vars, "TARGET"@) is Some {
            value_of(vars, "TARGET"@)
        } else {
            value_of(vars, "ADDR"@)
        }),
{
    reveal_with_fuel(first_value, 6);
    let s = service_name_keys();
    assert(s.skip(1).skip(1) == s.skip(2));
    assert(s.skip(2).skip(1) == s.skip(3));
    assert(s.skip(3).skip(1) == s.skip(4));
    assert(s.skip(4).skip(1) == s.skip(5));
    let t = target_addr_keys();
    assert(t.skip(1).skip(1) == t.skip(2));
    assert(t.skip(2).skip(1) == t.skip(3));
    assert(t.skip(3).skip(1) == t.skip(4));
}

/// A variable that spells a number sets the number: the decimal digits of every number that fits,
/// with or without a `+`, give that number. The default counts exactly where the variable is not
/// set or spells no number that fits.
pub proof fn numbers_are_taken_over(
    vars: Seq<(Seq<char>, Seq<char>)>,
    name: Seq<char>,
    cfg: Config,
    n: nat,
    digits: Seq<char>,
)
    requires
        cfg@ == configured(vars, name),
        digits == text::decimal(n) || digits == seq!['+'] + text::decimal(n),
    ensures
        value_of(vars, "NAUTROUDS_MAX_CONNS"@) == Some(digits) && n <= usize::MAX
            ==> cfg.max_connections == n,
        value_of(vars, "NAUTROUDS_METRICS_INTERVAL_SECS"@) == Some(digits) && n <= u64::MAX
            ==> cfg.metrics_interval_secs == n,
        value_of(vars, "NAUTROUDS_MAX_CONNS"@) == Some(digits) && n > usize::MAX
            ==> cfg.max_connections == 1024,
        value_of(vars, "NAUTROUDS_METRICS_INTERVAL_SECS"@) == Some(digits) && n > u64::MAX
            ==> cfg.metrics_interval_secs == 15,
        value_of(vars, "NAUTROUDS_MAX_CONNS"@) is None ==> cfg.max_connections == 1024,
        value_of(vars, "NAUTROUDS_METRICS_INTERVAL_SECS"@) is None ==> cfg.metrics_interval_secs
            == 15,
{
    let s = seq!['x'];
    text::unsigned_numbers_are_read(n, usize::MAX as nat, s, 0);
    text::unsigned_numbers_are_read(n, u64::MAX as nat, s, 0);
}

/// Digits are read as the number that they stand for, leading zeros and all, and a value that is
/// anything but digits behind an optional `+` leaves the default.
pub proof fn other_values_leave_the_default(
    vars: Seq<(Seq<char>, Seq<char>)>,
    name: Seq<char>,
    cfg: Config,
    value: Seq<char>,
)
    requires
        cfg@ == configured(vars, name),
    ensures
        value_of(vars, "NAUTROUDS_MAX_CONNS"@) == Some(value) && text::is_number(value)
            && text::number(value) <= usize::MAX ==> cfg.max_connections == text::number(value),
        value_of(vars, "NAUTROUDS_METRICS_INTERVAL_SECS"@) == Some(value) && text::is_number(value)
            && text::number(value) <= u64::MAX ==> cfg.metrics_interval_secs == text::number(value),
        value_of(vars, "NAUTROUDS_MAX_CONNS"@) == Some(value) && !text::is_number(value) && !(
        value.len() > 0 && value[0] == '+' && text::is_number(value.skip(1)))
            ==> cfg.max_connections == 1024,
        value_of(vars, "NAUTROUDS_METRICS_INTERVAL_SECS"@) == Some(value) && !text::is_number(value)
            && !(value.len() > 0 && value[0] == '+' && text::is_number(value.skip(1)))
            ==> cfg.metrics_interval_secs == 15,
{
    text::unsigned_numbers_are_in_bounds(value, usize::MAX as nat);
    text::unsigned_numbers_are_in_bounds(value, u64::MAX as nat);
}

/// The service name is as given, the base directory is the variable's or the default one, and the
/// targets are the listed addresses, each without weight and TLS files.
pub proof fn texts_are_taken_over(
    vars: Seq<(Seq<char>, Seq<char>)>,
    name: Seq<char>,
    cfg: Config,
)
    requires
        cfg@ == configured(vars, name),
    ensures
        cfg.service_name@ == name,
        value_of(vars, "NAUTROUDS_SERVICES_DIR"@) matches Some(dir) ==> cfg.base_dir@ == dir,
        value_of(vars, "NAUTROUDS_SERVICES_DIR"@) is None ==> cfg.base_dir@
            == "/var/run/nautrouds/services"@,
        ({
            let raw = match first_value(vars, target_addr_keys()) {
                Some(raw) => raw,
                None => Seq::empty(),
            };
            &&& cfg.targets@.len() == listed_addresses(raw).len()
            &&& forall|i: int|
                0 <= i < cfg.targets@.len() ==> {
                    let target = #[trigger] cfg.targets@[i];
                    &&& target.addr@ == listed_addresses(raw)[i]
                    &&& target.weight is None
                    &&& target.ca is None
                    &&& target.cert is None
                    &&& target.key is None
                }
        }),
{
    assert(cfg@.targets.len() == cfg.targets@.len());
    assert forall|i: int| 0 <= i < cfg.targets@.len() implies #[trigger] cfg@.targets[i]
        == cfg.targets@[i]@ by {}
    let raw = match first_value(vars, target_addr_keys()) {
        Some(raw) => raw,
        None => Seq::empty(),
    };
    assert forall|i: int| 0 <= i < cfg.targets@.len() implies {
        let target = #[trigger] cfg.targets@[i];
        &&& target.addr@ == listed_addresses(raw)[i]
        &&& target.weight is None
        &&& target.ca is None
        &&& target.cert is None
        &&& target.key is None
    } by {
        assert(cfg@.targets[i] == cfg.targets@[i]@);
        assert(cfg@.targets[i] == TargetView::plain(listed_addresses(raw)[i]));
    }
}

/// The addresses of a list are its parts between commas, trimmed, without the empty ones, each where
/// it first occurs and in that order. The result gives the positions of these parts.
pub proof fn addresses_keep_their_order(raw: Seq<char>) -> (pos: Seq<int>)
    ensures
        ({
            let parts = text::split(raw, ',');
            let list = listed_addresses(raw);
            &&& pos.len() == list.len()
            &&& forall|i: int|
                0 <= i < pos.len() ==> {
                    &&& 0 <= #[trigger] pos[i] < parts.len()
                    &&& text::trimmed(parts[pos[i]]) == list[i]
                    &&& list[i].len() > 0
                }
            &&& forall|i: int, k: int|
                0 <= i < pos.len() && 0 <= k < #[trigger] pos[i] ==> text::trimmed(
                    #[trigger] parts[k],
                ) != list[i]
            &&& forall|i: int, j: int|
                0 <= i < j < pos.len() ==> #[trigger] pos[i] < #[trigger] pos[j]
            &&& forall|k: int|
                0 <= k < parts.len() && text::trimmed(#[trigger] parts[k]).len() > 0
                    ==> list.contains(text::trimmed(parts[k]))
        }),
{
    let parts = text::split(raw, ',');
    let all = parts.map_values(|p: Seq<char>| text::trimmed(p));
    let pos = first_positions(all);
    assert forall|i: int, k: int|
        0 <= i < pos.len() && 0 <= k < #[trigger] pos[i] implies text::trimmed(#[trigger] parts[k])
        != listed_addresses(raw)[i] by {
        assert(all[k] != listed_addresses(raw)[i]);
    }
    assert forall|k: int|
        0 <= k < parts.len() && text::trimmed(#[trigger] parts[k]).len()
            > 0 implies listed_addresses(raw).contains(text::trimmed(parts[k])) by {
        assert(all[k] == text::trimmed(parts[k]));
    }
    assert forall|i: int| 0 <= i < pos.len() implies {
        &&& 0 <= #[trigger] pos[i] < parts.len()
        &&& text::trimmed(parts[pos[i]]) == listed_addresses(raw)[i]
        &&& listed_addresses(raw)[i].len() > 0
    } by {
        assert(all[pos[i]] == text::trimmed(parts[pos[i]]));
    }
    pos
}

proof fn first_positions(all: Seq<Seq<char>>) -> (pos: Seq<int>)
    ensures
        ({
            let list = first_occurrences(all.filter(|p: Seq<char>| p.len() > 0));
            &&& pos.len() == list.len()
            &&& forall|i: int|
                0 <= i < pos.len() ==> 0 <= #[trigger] pos[i] < all.len() && all[pos[i]] == list[i]
                    && list[i].len() > 0
            &&& forall|i: int, k: int|
                0 <= i < pos.len() && 0 <= k < #[trigger] pos[i] ==> #[trigger] all[k] != list[i]
            &&& forall|i: int, j: int|
                0 <= i < j < pos.len() ==> #[trigger] pos[i] < #[trigger] pos[j]
            &&& forall|k: int|
                0 <= k < all.len() && (#[trigger] all[k]).len() > 0 ==> list.contains(all[k])
        }),
    decreases all.len(),
{
    reveal(Seq::filter);
    let keep = |p: Seq<char>| p.len() > 0;
    if all.len() == 0 {
        Seq::empty()
    } else {
        let front = all.drop_last();
        let last = all.last();
        let before = first_positions(front);
        let kept = front.filter(keep);
        let list = first_occurrences(kept);
        let now = first_occurrences(all.filter(keep));
        occurrences_keep_elements(kept, last);
        assert forall|k: int| 0 <= k < front.len() implies #[trigger] front[k] == all[k] by {}
        assert forall|i: int| 0 <= i < before.len() implies 0 <= #[trigger] before[i] < all.len()
            && all[before[i]] == list[i] && list[i].len() > 0 by {
            assert(front[before[i]] == list[i]);
        }
        assert forall|i: int, k: int|
            0 <= i < before.len() && 0 <= k < #[trigger] before[i] implies #[trigger] all[k]
            != list[i] by {
            assert(front[k] != list[i]);
        }
        if last.len() > 0 {
            assert(all.filter(keep) == kept.push(last));
            assert(kept.push(last).drop_last() == kept);
            if kept.contains(last) {
                assert(now == list);
                assert forall|k: int|
                    0 <= k < all.len() && (#[trigger] all[k]).len() > 0 implies now.contains(
                    all[k],
                ) by {
                    if k < front.len() {
                        assert(front[k].len() > 0);
                    }
                }
                before
            } else {
                assert(now == list.push(last));
                let pos = before.push(front.len() as int);
                assert forall|i: int, k: int|
                    0 <= i < pos.len() && 0 <= k < #[trigger] pos[i] implies #[trigger] all[k]
                    != now[i] by {
                    if i < before.len() {
                        assert(before[i] == pos[i]);
                        assert(front[k] != list[i]);
                    } else {
                        if all[k] == last {
                            assert(front[k].len() > 0);
                            assert(list.contains(last));
                        }
                    }
                }
                assert forall|i: int, j: int| 0 <= i < j < pos.len() implies #[trigger] pos[i]
                    < #[trigger] pos[j] by {
                    assert(before[i] == pos[i]);
                    if j < before.len() {
                        assert(before[j] == pos[j]);
                    }
                }
                assert forall|i: int| 0 <= i < pos.len() implies 0 <= #[trigger] pos[i] < all.len()
                    && all[pos[i]] == now[i] && now[i].len() > 0 by {
                    if i < before.len() {
                        assert(before[i] == pos[i]);
                        assert(front[before[i]] == list[i]);
                    }
                }
                assert forall|k: int|
                    0 <= k < all.len() && (#[trigger] all[k]).len() > 0 implies now.contains(
                    all[k],
                ) by {
                    if k < front.len() {
                        assert(front[k].len() > 0);
                        let i = choose|i: int| 0 <= i < list.len() && list[i] == all[k];
                        assert(now[i] == all[k]);
                    } else {
                        assert(now[list.len() as int] == last);
                    }
                }
                pos
            }
        } else {
            assert(all.filter(keep) == kept);
            assert forall|k: int|
                0 <= k < all.len() && (#[trigger] all[k]).len() > 0 implies now.contains(all[k]) by {
                assert(front[k].len() > 0);
            }
            before
        }
    }
}

/// Where metrics go: nowhere for `-`, else the value, or `metrics.sock` for an empty or missing
/// value, under the base directory.
pub proof fn metrics_go_under_the_base_directory(base_dir: Seq<char>, value: Seq<char>)
    ensures
        metrics_socket(base_dir, None) == Some(path::joined(base_dir, "metrics.sock"@)),
        metrics_socket(base_dir, Some(Seq::empty())) == metrics_socket(base_dir, None),
        metrics_socket(base_dir, Some(value)) is None <==> value == seq!['-'],
        value.len() > 0 && value != seq!['-'] ==> metrics_socket(base_dir, Some(value)) == Some(
            path::joined(base_dir, value),
        ),
{
    reveal_strlit("-");
    assert("-"@ == seq!['-']);
}

} // verus!
