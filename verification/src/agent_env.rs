//! The environment of an agent process, and how it is pointed at a scratch
//! directory.

use std::path::PathBuf;

use vstd::prelude::*;

use crate::paths;
use crate::text;

verus! {

/// The three names a child consults for its temp directory. All are set
/// together: `GetTempPathW` reads `TMP` before `TEMP`, so setting only one
/// leaves the other able to win.
pub const TEMP_ENV_KEYS: [&'static str; 3] = ["TMP", "TEMP", "TMPDIR"];

/// Keys in strictly ascending order.
pub open spec fn ascending(vars: Seq<(Seq<char>, Seq<char>)>) -> bool {
    forall|i: int, j: int|
        0 <= i < j < vars.len() ==> text::precedes(#[trigger] vars[i].0, #[trigger] vars[j].0)
}

pub open spec fn has_key(vars: Seq<(Seq<char>, Seq<char>)>, key: Seq<char>) -> bool {
    exists|i: int| 0 <= i < vars.len() && #[trigger] vars[i].0 == key
}

/// The variables as a map from name to value.
pub open spec fn map_of(vars: Seq<(Seq<char>, Seq<char>)>) -> Map<Seq<char>, Seq<char>> {
    Map::new(
        |key: Seq<char>| has_key(vars, key),
        |key: Seq<char>| vars[choose|i: int| 0 <= i < vars.len() && #[trigger] vars[i].0 == key].1,
    )
}

/// What each variable of an ascending list contributes to the map.
proof fn lemma_map_of_entry(vars: Seq<(Seq<char>, Seq<char>)>, i: int)
    requires
        ascending(vars),
        0 <= i < vars.len(),
    ensures
        map_of(vars).contains_key(vars[i].0),
        map_of(vars)[vars[i].0] == vars[i].1,
{
    let key = vars[i].0;
    assert(has_key(vars, key));
    let j = choose|j: int| 0 <= j < vars.len() && #[trigger] vars[j].0 == key;
    text::lemma_precedes_irreflexive(key);
    assert(i == j);
}

/// A new variable, put where the order wants it.
proof fn lemma_insert_new(
    vars: Seq<(Seq<char>, Seq<char>)>,
    at: int,
    key: Seq<char>,
    value: Seq<char>,
)
    requires
        ascending(vars),
        0 <= at <= vars.len(),
        forall|i: int| 0 <= i < at ==> text::precedes(#[trigger] vars[i].0, key),
        forall|i: int| at <= i < vars.len() ==> text::precedes(key, #[trigger] vars[i].0),
    ensures
        ascending(vars.insert(at, (key, value))),
        map_of(vars.insert(at, (key, value))) == map_of(vars).insert(key, value),
{
    let after = vars.insert(at, (key, value));
    assert forall|i: int, j: int| 0 <= i < j < after.len() implies text::precedes(
        #[trigger] after[i].0,
        #[trigger] after[j].0,
    ) by {
        let left = if i < at { i } else { i - 1 };
        let right = if j < at { j } else { j - 1 };
        if i != at {
            assert(after[i] == vars[left]);
        }
        if j != at {
            assert(after[j] == vars[right]);
        }
    }
    assert forall|k: Seq<char>| has_key(after, k) == (k == key || has_key(vars, k)) by {
        if has_key(after, k) {
            let i = choose|i: int| 0 <= i < after.len() && #[trigger] after[i].0 == k;
            if i < at {
                assert(vars[i].0 == k);
            } else if i > at {
                assert(vars[i - 1].0 == k);
            }
        }
        if k == key {
            assert(after[at].0 == k);
        }
        if has_key(vars, k) {
            let i = choose|i: int| 0 <= i < vars.len() && #[trigger] vars[i].0 == k;
            if i < at {
                assert(after[i].0 == k);
            } else {
                assert(after[i + 1].0 == k);
            }
        }
    }
    assert forall|k: Seq<char>| has_key(after, k) implies #[trigger] map_of(after)[k] == map_of(
        vars,
    ).insert(key, value)[k] by {
        let i = choose|i: int| 0 <= i < after.len() && #[trigger] after[i].0 == k;
        lemma_map_of_entry(after, i);
        if i == at {
        } else if i < at {
            lemma_map_of_entry(vars, i);
            text::lemma_precedes_irreflexive(key);
        } else {
            lemma_map_of_entry(vars, i - 1);
            text::lemma_precedes_irreflexive(key);
        }
    }
    assert(map_of(after) =~= map_of(vars).insert(key, value));
}

/// A new value for a variable that is there.
proof fn lemma_replace_value(vars: Seq<(Seq<char>, Seq<char>)>, at: int, value: Seq<char>)
    requires
        ascending(vars),
        0 <= at < vars.len(),
    ensures
        ascending(vars.update(at, (vars[at].0, value))),
        map_of(vars.update(at, (vars[at].0, value))) == map_of(vars).insert(vars[at].0, value),
{
    let key = vars[at].0;
    let after = vars.update(at, (key, value));
    assert forall|i: int| 0 <= i < vars.len() implies #[trigger] after[i].0 == vars[i].0 by {}
    assert forall|k: Seq<char>| has_key(after, k) == has_key(vars, k) by {
        if has_key(after, k) {
            let i = choose|i: int| 0 <= i < after.len() && #[trigger] after[i].0 == k;
            assert(vars[i].0 == k);
        }
        if has_key(vars, k) {
            let i = choose|i: int| 0 <= i < vars.len() && #[trigger] vars[i].0 == k;
            assert(after[i].0 == k);
        }
    }
    assert forall|k: Seq<char>| has_key(after, k) implies #[trigger] map_of(after)[k] == map_of(
        vars,
    ).insert(key, value)[k] by {
        let i = choose|i: int| 0 <= i < after.len() && #[trigger] after[i].0 == k;
        lemma_map_of_entry(after, i);
        lemma_map_of_entry(vars, i);
        if i != at {
            text::lemma_precedes_irreflexive(key);
        }
    }
    assert(has_key(vars, key));
    assert(map_of(after) =~= map_of(vars).insert(key, value));
}

/// One variable less.
proof fn lemma_remove_entry(vars: Seq<(Seq<char>, Seq<char>)>, at: int)
    requires
        ascending(vars),
        0 <= at < vars.len(),
    ensures
        ascending(vars.remove(at)),
        map_of(vars.remove(at)) == map_of(vars).remove(vars[at].0),
{
    let key = vars[at].0;
    let after = vars.remove(at);
    assert forall|i: int, j: int| 0 <= i < j < after.len() implies text::precedes(
        #[trigger] after[i].0,
        #[trigger] after[j].0,
    ) by {
        let left = if i < at { i } else { i + 1 };
        let right = if j < at { j } else { j + 1 };
        assert(after[i] == vars[left]);
        assert(after[j] == vars[right]);
    }
    text::lemma_precedes_irreflexive(key);
    assert forall|k: Seq<char>| has_key(after, k) == (k != key && has_key(vars, k)) by {
        if has_key(after, k) {
            let i = choose|i: int| 0 <= i < after.len() && #[trigger] after[i].0 == k;
            let from = if i < at { i } else { i + 1 };
            assert(vars[from].0 == k);
        }
        if k != key && has_key(vars, k) {
            let i = choose|i: int| 0 <= i < vars.len() && #[trigger] vars[i].0 == k;
            let to = if i < at { i } else { i - 1 };
            assert(after[to].0 == k);
        }
    }
    assert forall|k: Seq<char>| has_key(after, k) implies #[trigger] map_of(after)[k] == map_of(
        vars,
    ).remove(key)[k] by {
        let i = choose|i: int| 0 <= i < after.len() && #[trigger] after[i].0 == k;
        lemma_map_of_entry(after, i);
        lemma_map_of_entry(vars, if i < at { i } else { i + 1 });
    }
    assert(map_of(after) =~= map_of(vars).remove(key));
}

/// The texts of a list of variables.
pub open spec fn texts(entries: Seq<(String, String)>) -> Seq<(Seq<char>, Seq<char>)> {
    entries.map_values(|entry: (String, String)| (entry.0@, entry.1@))
}

/// The variables that an agent process is started with. Names are unique and
/// kept in ascending order.
pub struct AgentEnv {
    entries: Vec<(String, String)>,
}

impl View for AgentEnv {
    type V = Map<Seq<char>, Seq<char>>;

    closed spec fn view(&self) -> Map<Seq<char>, Seq<char>> {
        map_of(texts(self.entries@))
    }
}

impl AgentEnv {
    #[verifier::type_invariant]
    spec fn well_formed(self) -> bool {
        ascending(texts(self.entries@))
    }

    /// No variables at all.
    pub fn new() -> (env: AgentEnv)
        ensures
            env@ == Map::<Seq<char>, Seq<char>>::empty(),
    {
        let env = AgentEnv { entries: Vec::new() };
        assert(env@ =~= Map::<Seq<char>, Seq<char>>::empty());
        env
    }

    /// Where `key` is or would be: the number of names that come before it.
    fn position(entries: &Vec<(String, String)>, key: &str) -> (at: usize)
        requires
            ascending(texts(entries@)),
        ensures
            at <= entries@.len(),
            forall|i: int| 0 <= i < at ==> text::precedes(#[trigger] texts(entries@)[i].0, key@),
            forall|i: int| at < i < entries@.len() ==> text::precedes(key@, #[trigger] texts(entries@)[i].0),
            at < entries@.len() ==> texts(entries@)[at as int].0 == key@ || text::precedes(
                key@,
                texts(entries@)[at as int].0,
            ),
    {
        let mut at: usize = 0;
        while at < entries.len() && text::comes_before(entries[at].0.as_str(), key)
            invariant
                at <= entries@.len(),
                forall|i: int| 0 <= i < at ==> text::precedes(#[trigger] texts(entries@)[i].0, key@),
            decreases entries@.len() - at,
        {
            at = at + 1;
        }
        proof {
            let vars = texts(entries@);
            if at < entries@.len() {
                if vars[at as int].0 != key@ {
                    text::lemma_precedes_total(vars[at as int].0, key@);
                }
                assert forall|i: int| at < i < entries@.len() implies text::precedes(
                    key@,
                    #[trigger] vars[i].0,
                ) by {
                    if vars[at as int].0 != key@ {
                        text::lemma_precedes_transitive(key@, vars[at as int].0, vars[i].0);
                    }
                }
            }
        }
        at
    }

    /// Sets `key` to `value`, replacing the value it had.
    pub fn insert(&mut self, key: String, value: String)
        ensures
            final(self)@ == old(self)@.insert(key@, value@),
    {
        proof {
            use_type_invariant(&*self);
        }
        let mut entries: Vec<(String, String)> = Vec::new();
        std::mem::swap(&mut entries, &mut self.entries);
        let ghost before = texts(entries@);
        let at = Self::position(&entries, key.as_str());
        if at < entries.len() && text::same_text(entries[at].0.as_str(), key.as_str()) {
            proof {
                lemma_replace_value(before, at as int, value@);
                assert(texts(entries@.update(at as int, (key, value))) =~= before.update(
                    at as int,
                    (key@, value@),
                ));
            }
            entries.set(at, (key, value));
        } else {
            proof {
                lemma_insert_new(before, at as int, key@, value@);
                assert(texts(entries@.insert(at as int, (key, value))) =~= before.insert(
                    at as int,
                    (key@, value@),
                ));
            }
            entries.insert(at, (key, value));
        }
        self.entries = entries;
    }

    /// The value of `key`, where it has one.
    pub fn get(&self, key: &str) -> (value: Option<&String>)
        ensures
            value is Some <==> self@.contains_key(key@),
            value matches Some(v) ==> v@ == self@[key@],
    {
        proof {
            use_type_invariant(self);
        }
        let at = Self::position(&self.entries, key);
        let ghost vars = texts(self.entries@);
        if at < self.entries.len() && text::same_text(self.entries[at].0.as_str(), key) {
            proof {
                lemma_map_of_entry(vars, at as int);
            }
            Some(&self.entries[at].1)
        } else {
            proof {
                text::lemma_precedes_irreflexive(key@);
                if has_key(vars, key@) {
                    let i = choose|i: int| 0 <= i < vars.len() && #[trigger] vars[i].0 == key@;
                    assert(i == at);
                }
            }
            None
        }
    }

    /// Whether `key` is set.
    pub fn contains_key(&self, key: &str) -> (set: bool)
        ensures
            set == self@.contains_key(key@),
    {
        self.get(key).is_some()
    }

    /// The variables in ascending order of their names.
    pub fn into_entries(self) -> (entries: Vec<(String, String)>)
        ensures
            ascending(texts(entries@)),
            map_of(texts(entries@)) == self@,
    {
        proof {
            use_type_invariant(&self);
        }
        self.entries
    }
}

/// One of [`TEMP_ENV_KEYS`].
pub open spec fn is_temp_key(key: Seq<char>) -> bool {
    key == "TMP"@ || key == "TEMP"@ || key == "TMPDIR"@
}

/// One of [`TEMP_ENV_KEYS`] in some spelling of its ASCII letters.
pub open spec fn spells_temp_key(key: Seq<char>) -> bool {
    ||| text::same_ignoring_ascii_case(key, "TMP"@)
    ||| text::same_ignoring_ascii_case(key, "TEMP"@)
    ||| text::same_ignoring_ascii_case(key, "TMPDIR"@)
}

/// `env` with its temp variables set to `value`, and every other variable as it
/// was; where names are case-insensitive, no other spelling of a temp variable
/// is left.
pub open spec fn pointed_at(
    env: Map<Seq<char>, Seq<char>>,
    value: Seq<char>,
    case_insensitive: bool,
) -> Map<Seq<char>, Seq<char>> {
    Map::new(
        |key: Seq<char>|
            is_temp_key(key) || (env.contains_key(key) && !(case_insensitive && spells_temp_key(
                key,
            ))),
        |key: Seq<char>|
            if is_temp_key(key) {
                value
            } else {
                env[key]
            },
    )
}

proof fn lemma_temp_env_keys()
    ensures
        TEMP_ENV_KEYS@.len() == 3,
        TEMP_ENV_KEYS@[0]@ == "TMP"@,
        TEMP_ENV_KEYS@[1]@ == "TEMP"@,
        TEMP_ENV_KEYS@[2]@ == "TMPDIR"@,
{
}

impl AgentEnv {
    /// Drops every spelling of a temp variable.
    fn drop_temp_spellings(&mut self)
        ensures
            final(self)@ == Map::new(
                |key: Seq<char>| old(self)@.contains_key(key) && !spells_temp_key(key),
                |key: Seq<char>| old(self)@[key],
            ),
    {
        proof {
            use_type_invariant(&*self);
            lemma_temp_env_keys();
        }
        let mut entries: Vec<(String, String)> = Vec::new();
        std::mem::swap(&mut entries, &mut self.entries);
        let ghost all = map_of(texts(entries@));
        let mut i: usize = 0;
        while i < entries.len()
            invariant
                i <= entries@.len(),
                ascending(texts(entries@)),
                forall|j: int| 0 <= j < i ==> !spells_temp_key(#[trigger] texts(entries@)[j].0),
                forall|key: Seq<char>| #[trigger]
                    map_of(texts(entries@)).contains_key(key) ==> all.contains_key(key) && map_of(
                        texts(entries@),
                    )[key] == all[key],
                forall|key: Seq<char>| #[trigger]
                    all.contains_key(key) && !spells_temp_key(key) ==> map_of(
                        texts(entries@),
                    ).contains_key(key),
            decreases entries@.len() - i,
        {
            let name = entries[i].0.as_str();
            let ghost vars = texts(entries@);
            assert(vars[i as int].0 == name@);
            if text::eq_ignore_ascii_case(name, TEMP_ENV_KEYS[0]) || text::eq_ignore_ascii_case(
                name,
                TEMP_ENV_KEYS[1],
            ) || text::eq_ignore_ascii_case(name, TEMP_ENV_KEYS[2]) {
                proof {
                    lemma_remove_entry(vars, i as int);
                    assert(texts(entries@.remove(i as int)) =~= vars.remove(i as int));
                }
                let _ = entries.remove(i);
            } else {
                i = i + 1;
            }
        }
        proof {
            let vars = texts(entries@);
            assert forall|key: Seq<char>| map_of(vars).contains_key(key) implies !spells_temp_key(
                key,
            ) by {
                let j = choose|j: int| 0 <= j < vars.len() && #[trigger] vars[j].0 == key;
                assert(!spells_temp_key(vars[j].0));
            }
            assert(map_of(vars) =~= Map::new(
                |key: Seq<char>| all.contains_key(key) && !spells_temp_key(key),
                |key: Seq<char>| all[key],
            ));
        }
        self.entries = entries;
    }

    /// Points the temp variables at `value`.
    pub fn point_at(&mut self, value: &str, case_insensitive: bool)
        ensures
            final(self)@ == pointed_at(old(self)@, value@, case_insensitive),
    {
        if case_insensitive {
            self.drop_temp_spellings();
        }
        let ghost kept = self@;
        self.insert(TEMP_ENV_KEYS[0].to_owned(), value.to_owned());
        self.insert(TEMP_ENV_KEYS[1].to_owned(), value.to_owned());
        self.insert(TEMP_ENV_KEYS[2].to_owned(), value.to_owned());
        proof {
            lemma_temp_env_keys();
            assert(self@ == kept.insert("TMP"@, value@).insert("TEMP"@, value@).insert(
                "TMPDIR"@,
                value@,
            ));
            assert(self@ =~= pointed_at(old(self)@, value@, case_insensitive));
        }
    }
}

/// Points a merged agent environment at `scratch`.
///
/// Must be applied after every other contributor. Precedence is the whole
/// point: `GetTempPathW` reads `TMP` first, so a per-agent `TMP` left in place
/// would send the extraction wherever it points while an empty scratch
/// directory was deleted and success reported.
///
/// `case_insensitive` says how the platform reads variable names. Windows does
/// so without regard to case: an agent setting spelled `tmp` would survive
/// beside `TMP`, and the child would see two spellings of one variable with only
/// one of them pointing at the scratch directory. There every spelling is
/// dropped first. On Unix `tmp` and `TMP` really are different variables, and
/// removing one would destroy an unrelated setting.
pub fn apply_to_env(env: &mut AgentEnv, scratch: &PathBuf, case_insensitive: bool)
    ensures
        final(env)@ == pointed_at(
            old(env)@,
            paths::lossy_text(paths::os_bytes(*scratch)),
            case_insensitive,
        ),
        vstd::utf8::valid_utf8(paths::os_bytes(*scratch)) ==> paths::lossy_text(
            paths::os_bytes(*scratch),
        ) == vstd::utf8::decode_utf8(paths::os_bytes(*scratch)),
{
    let value = paths::to_string_lossy(scratch);
    env.point_at(value.as_str(), case_insensitive);
}

/// Whatever the environment held, a child that consults any of the three names
/// reads the scratch directory; where names are case-insensitive it does so in
/// any spelling that is left.
pub proof fn law_every_temp_name_reads_the_scratch_dir(
    env: Map<Seq<char>, Seq<char>>,
    value: Seq<char>,
    case_insensitive: bool,
    key: Seq<char>,
)
    ensures
        is_temp_key(key) ==> pointed_at(env, value, case_insensitive).contains_key(key)
            && pointed_at(env, value, case_insensitive)[key] == value,
        case_insensitive && spells_temp_key(key) && pointed_at(
            env,
            value,
            case_insensitive,
        ).contains_key(key) ==> is_temp_key(key),
{
}

/// A variable that is no temp variable keeps its value, and none appears. On a
/// platform with case-sensitive names another spelling of a temp variable is
/// such a variable too.
pub proof fn law_other_variables_are_kept(
    env: Map<Seq<char>, Seq<char>>,
    value: Seq<char>,
    case_insensitive: bool,
    key: Seq<char>,
)
    requires
        if case_insensitive {
            !spells_temp_key(key)
        } else {
            !is_temp_key(key)
        },
    ensures
        pointed_at(env, value, case_insensitive).contains_key(key) == env.contains_key(key),
        env.contains_key(key) ==> pointed_at(env, value, case_insensitive)[key] == env[key],
{
    if case_insensitive && is_temp_key(key) {
        assert(text::same_ignoring_ascii_case(key, key));
    }
}

/// The last scratch directory that an environment is pointed at is the one that
/// counts.
pub proof fn law_the_last_scratch_dir_wins(
    env: Map<Seq<char>, Seq<char>>,
    first: Seq<char>,
    last: Seq<char>,
    case_insensitive: bool,
)
    ensures
        pointed_at(pointed_at(env, first, case_insensitive), last, case_insensitive) == pointed_at(
            env,
            last,
            case_insensitive,
        ),
{
    assert(pointed_at(pointed_at(env, first, case_insensitive), last, case_insensitive)
        =~= pointed_at(env, last, case_insensitive));
}

/// An environment starts empty.
pub proof fn law_no_variable_is_set_at_first(env: AgentEnv, key: &str, value: Option<&String>)
    requires
        call_ensures(AgentEnv::new, (), env),
        call_ensures(AgentEnv::get, (&env, key), value),
    ensures
        value is None,
{
}

/// A variable that was set reads what it was set to, and every other reads what it
/// did before.
pub proof fn law_a_variable_reads_what_it_was_set_to(
    env: &mut AgentEnv,
    key: String,
    value: String,
    other: &str,
    was: Option<&String>,
    now: Option<&String>,
)
    requires
        call_ensures(AgentEnv::get, (&*old(env), other), was),
        call_ensures(AgentEnv::insert, (env, key, value), ()),
        call_ensures(AgentEnv::get, (&*final(env), other), now),
    ensures
        other@ == key@ ==> (now matches Some(v) && v@ == value@),
        other@ != key@ ==> (now is Some <==> was is Some),
        other@ != key@ && now is Some ==> now->0@ == was->0@,
{
}

/// A variable is there exactly when it has a value.
pub proof fn law_set_variables_have_values(
    env: &AgentEnv,
    key: &str,
    set: bool,
    value: Option<&String>,
)
    requires
        call_ensures(AgentEnv::contains_key, (env, key), set),
        call_ensures(AgentEnv::get, (env, key), value),
    ensures
        set <==> value is Some,
{
}

/// The list of the variables holds each that has a value, with that value, and
/// nothing else. It is in strictly ascending order of the names.
pub proof fn law_the_list_holds_every_variable(
    env: AgentEnv,
    entries: Vec<(String, String)>,
    key: &str,
    value: Option<&String>,
)
    requires
        call_ensures(AgentEnv::get, (&env, key), value),
        call_ensures(AgentEnv::into_entries, (env,), entries),
    ensures
        value is Some <==> exists|i: int|
            0 <= i < entries@.len() && (#[trigger] entries@[i]).0@ == key@,
        forall|i: int|
            0 <= i < entries@.len() && (#[trigger] entries@[i]).0@ == key@ ==> value is Some
                && entries@[i].1@ == value->0@,
        forall|i: int, j: int|
            0 <= i < j < entries@.len() ==> text::precedes(
                (#[trigger] entries@[i]).0@,
                (#[trigger] entries@[j]).0@,
            ),
{
    let vars = texts(entries@);
    assert forall|i: int| 0 <= i < entries@.len() implies vars[i].0 == (#[trigger] entries@[i]).0@
        && vars[i].1 == entries@[i].1@ by {}
    assert forall|i: int, j: int| 0 <= i < j < entries@.len() implies text::precedes(
        (#[trigger] entries@[i]).0@,
        (#[trigger] entries@[j]).0@,
    ) by {
        assert(text::precedes(vars[i].0, vars[j].0));
    }
    assert forall|i: int| 0 <= i < entries@.len() && (#[trigger] entries@[i]).0@ == key@ implies value
        is Some && entries@[i].1@ == value->0@ by {
        lemma_map_of_entry(vars, i);
    }
    if value is Some {
        let i = choose|i: int| 0 <= i < vars.len() && #[trigger] vars[i].0 == key@;
        assert(entries@[i].0@ == key@);
    }
}

/// What becomes of each variable when the temp variables are pointed at `value`.
/// `TMP`, `TEMP` and `TMPDIR` read that value. Where names are case-insensitive,
/// another text of the same three, four or six letters in some mixture of cases is
/// dropped. Any variable else is set if it was, and to what it was.
pub proof fn law_pointing_changes_the_temp_variables_only(
    env: &mut AgentEnv,
    value: &str,
    case_insensitive: bool,
    key: &str,
    was: Option<&String>,
    now: Option<&String>,
)
    requires
        call_ensures(AgentEnv::get, (&*old(env), key), was),
        call_ensures(AgentEnv::point_at, (env, value, case_insensitive), ()),
        call_ensures(AgentEnv::get, (&*final(env), key), now),
    ensures
        ({
            let k = key@;
            let temp = k == seq!['T', 'M', 'P'] || k == seq!['T', 'E', 'M', 'P'] || k
                == seq!['T', 'M', 'P', 'D', 'I', 'R'];
            let t = k.len() > 0 && (k[0] == 'T' || k[0] == 't');
            let tmp = t && k.len() >= 3 && (k[1] == 'M' || k[1] == 'm') && (k[2] == 'P' || k[2]
                == 'p');
            let spells_temp = t && k.len() == 4 && (k[1] == 'E' || k[1] == 'e') && (k[2] == 'M'
                || k[2] == 'm') && (k[3] == 'P' || k[3] == 'p');
            let spells_tmpdir = tmp && k.len() == 6 && (k[3] == 'D' || k[3] == 'd') && (k[4] == 'I'
                || k[4] == 'i') && (k[5] == 'R' || k[5] == 'r');
            let spelled = (tmp && k.len() == 3) || spells_temp || spells_tmpdir;
            &&& temp ==> (now matches Some(v) && v@ == value@)
            &&& !temp && case_insensitive && spelled ==> now is None
            &&& !temp && !(case_insensitive && spelled) ==> (now is Some <==> was is Some)
            &&& !temp && !(case_insensitive && spelled) && now is Some ==> now->0@ == was->0@
        }),
{
    lemma_temp_texts(key@);
}

/// The environment of an agent is pointed at the text of its scratch directory, as
/// by [`AgentEnv::point_at`].
pub proof fn law_agents_are_pointed_at_their_scratch_dir(
    env: &mut AgentEnv,
    scratch: &PathBuf,
    case_insensitive: bool,
    same: &mut AgentEnv,
    value: &str,
)
    requires
        call_ensures(apply_to_env, (env, scratch, case_insensitive), ()),
        value@ == paths::lossy_text(paths::os_bytes(*scratch)),
        *old(same) == *old(env),
        call_ensures(AgentEnv::point_at, (same, value, case_insensitive), ()),
    ensures
        final(env)@ == final(same)@,
        vstd::utf8::valid_utf8(paths::os_bytes(*scratch)) ==> value@ == vstd::utf8::decode_utf8(
            paths::os_bytes(*scratch),
        ),
{
}

/// The temp keys and their spellings, letter by letter.
proof fn lemma_temp_texts(k: Seq<char>)
    ensures
        is_temp_key(k) <==> k == seq!['T', 'M', 'P'] || k == seq!['T', 'E', 'M', 'P'] || k
            == seq!['T', 'M', 'P', 'D', 'I', 'R'],
        text::same_ignoring_ascii_case(k, "TMP"@) <==> k.len() == 3 && (k[0] == 'T' || k[0] == 't')
            && (k[1] == 'M' || k[1] == 'm') && (k[2] == 'P' || k[2] == 'p'),
        text::same_ignoring_ascii_case(k, "TEMP"@) <==> k.len() == 4 && (k[0] == 'T' || k[0] == 't')
            && (k[1] == 'E' || k[1] == 'e') && (k[2] == 'M' || k[2] == 'm') && (k[3] == 'P' || k[3]
            == 'p'),
        text::same_ignoring_ascii_case(k, "TMPDIR"@) <==> k.len() == 6 && (k[0] == 'T' || k[0]
            == 't') && (k[1] == 'M' || k[1] == 'm') && (k[2] == 'P' || k[2] == 'p') && (k[3] == 'D'
            || k[3] == 'd') && (k[4] == 'I' || k[4] == 'i') && (k[5] == 'R' || k[5] == 'r'),
{
    reveal_strlit("TMP");
    reveal_strlit("TEMP");
    reveal_strlit("TMPDIR");
    assert("TMP"@ =~= seq!['T', 'M', 'P']);
    assert("TEMP"@ =~= seq!['T', 'E', 'M', 'P']);
    assert("TMPDIR"@ =~= seq!['T', 'M', 'P', 'D', 'I', 'R']);
    text::law_only_the_case_of_ascii_letters_is_ignored(k, "TMP"@);
    text::law_only_the_case_of_ascii_letters_is_ignored(k, "TEMP"@);
    text::law_only_the_case_of_ascii_letters_is_ignored(k, "TMPDIR"@);
}

} // verus!
