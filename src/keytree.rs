//! Grouping of flat keys into the fields of a struct: a key that names a
//! field gives its value; a key `FIELD_REST` gives the entry `REST` of the
//! nested struct in field `FIELD`.
use crate::text::{chars_of, string_of};
use vstd::prelude::*;

verus! {

/// What `str::to_uppercase` makes of a string.
pub uninterp spec fn upper_of(s: Seq<char>) -> Seq<char>;

/// Relies on `str::to_uppercase`: the uppercase form of the text, which
/// depends on the text alone.
#[verifier::external_body]
fn to_upper(s: &str) -> (r: String)
    ensures
        r@ == upper_of(s@),
{
    s.to_uppercase()
}

/// The value of a grouped entry: a raw value, or the entries of a nested
/// struct.
pub enum VarAccess {
    Value(String),
    Vars(Vec<(String, String)>),
}

/// The model of a `VarAccess`.
pub enum VarNode {
    Leaf(Seq<char>),
    Branch(Seq<(Seq<char>, Seq<char>)>),
}

pub open spec fn pairs_of(v: Seq<(String, String)>) -> Seq<(Seq<char>, Seq<char>)> {
    v.map_values(|x: (String, String)| (x.0@, x.1@))
}

impl View for VarAccess {
    type V = VarNode;

    open spec fn view(&self) -> VarNode {
        match self {
            VarAccess::Value(s) => VarNode::Leaf(s@),
            VarAccess::Vars(v) => VarNode::Branch(pairs_of(v@)),
        }
    }
}

pub open spec fn entries_of(v: Seq<(String, VarAccess)>) -> Seq<(Seq<char>, VarNode)> {
    v.map_values(|x: (String, VarAccess)| (x.0@, x.1@))
}

pub open spec fn names_of(fields: Seq<&str>) -> Seq<Seq<char>> {
    fields.map_values(|f: &str| f@)
}

/// The form of a field name that keys are compared with.
pub open spec fn cmp_name(name: Seq<char>, upper: bool) -> Seq<char> {
    if upper {
        upper_of(name)
    } else {
        name
    }
}

pub open spec fn is_prefix(p: Seq<char>, s: Seq<char>) -> bool {
    p.len() <= s.len() && s.take(p.len() as int) == p
}

pub open spec fn field_matches(key: Seq<char>, names: Seq<Seq<char>>, upper: bool, i: int) -> bool {
    is_prefix(cmp_name(names[i], upper), key)
}

/// Among the first `n` fields, the one whose name `key` starts with and that
/// is longest; of equally long ones, the last.
pub open spec fn best_field(key: Seq<char>, names: Seq<Seq<char>>, upper: bool, n: int) -> Option<
    int,
>
    decreases n,
{
    if n <= 0 {
        None
    } else {
        let b = best_field(key, names, upper, n - 1);
        if field_matches(key, names, upper, n - 1) && (b matches Some(j) ==> names[j].len()
            <= names[n - 1].len()) {
            Some(n - 1)
        } else {
            b
        }
    }
}

/// The index of the first entry with key `k`.
pub open spec fn key_index<V>(entries: Seq<(Seq<char>, V)>, k: Seq<char>) -> Option<int>
    decreases entries.len(),
{
    if entries.len() == 0 {
        None
    } else if entries[0].0 == k {
        Some(0)
    } else {
        match key_index(entries.drop_first(), k) {
            Some(i) => Some(i + 1),
            None => None,
        }
    }
}

/// `entries` with the value of key `k` set to `v`: in place where the key is
/// there, else as a new last entry.
pub open spec fn put<V>(entries: Seq<(Seq<char>, V)>, k: Seq<char>, v: V) -> Seq<(Seq<char>, V)> {
    match key_index(entries, k) {
        Some(i) => entries.update(i, (k, v)),
        None => entries.push((k, v)),
    }
}

/// The grouping after one more pair `(key, value)`.
pub open spec fn group_step(
    entries: Seq<(Seq<char>, VarNode)>,
    key: Seq<char>,
    value: Seq<char>,
    names: Seq<Seq<char>>,
    upper: bool,
) -> Seq<(Seq<char>, VarNode)> {
    match best_field(key, names, upper, names.len() as int) {
        None => put(entries, key, VarNode::Leaf(value)),
        Some(j) => {
            let name = names[j];
            let suffix = key.skip(cmp_name(name, upper).len() as int);
            if suffix.len() == 0 {
                put(entries, name, VarNode::Leaf(value))
            } else if suffix[0] == '_' {
                let sub = suffix.drop_first();
                match key_index(entries, name) {
                    Some(i) => match entries[i].1 {
                        VarNode::Branch(m) => entries.update(i, (name, VarNode::Branch(put(m, sub, value)))),
                        VarNode::Leaf(_) => entries,
                    },
                    None => entries.push((name, VarNode::Branch(seq![(sub, value)]))),
                }
            } else {
                entries
            }
        },
    }
}

/// The grouping of the pairs `vars`, taken in order.
pub open spec fn group_spec(
    vars: Seq<(Seq<char>, Seq<char>)>,
    names: Seq<Seq<char>>,
    upper: bool,
) -> Seq<(Seq<char>, VarNode)>
    decreases vars.len(),
{
    if vars.len() == 0 {
        Seq::empty()
    } else {
        group_step(group_spec(vars.drop_last(), names, upper), vars.last().0, vars.last().1, names, upper)
    }
}

pub proof fn lemma_best_field(key: Seq<char>, names: Seq<Seq<char>>, upper: bool, n: int)
    ensures
        best_field(key, names, upper, n) matches Some(j) ==> 0 <= j < n && field_matches(
            key,
            names,
            upper,
            j,
        ),
    decreases n,
{
    if n > 0 {
        lemma_best_field(key, names, upper, n - 1);
    }
}

pub proof fn lemma_key_index<V>(entries: Seq<(Seq<char>, V)>, k: Seq<char>)
    ensures
        key_index(entries, k) matches Some(i) ==> 0 <= i < entries.len() && entries[i].0 == k
            && forall|j: int| 0 <= j < i ==> entries[j].0 != k,
        key_index(entries, k) is None ==> forall|j: int|
            0 <= j < entries.len() ==> entries[j].0 != k,
    decreases entries.len(),
{
    if entries.len() > 0 && entries[0].0 != k {
        lemma_key_index(entries.drop_first(), k);
        assert forall|j: int| 1 <= j < entries.len() implies entries[j] == entries.drop_first()[j
            - 1] by {}
    }
}

pub(crate) fn copy_string(s: &String) -> (r: String)
    ensures
        r@ == s@,
{
    let cs = chars_of(s.as_str());
    assert(cs@.subrange(0, cs@.len() as int) =~= cs@);
    string_of(&cs, 0, cs.len())
}

/// The index of the first pair of `m` with key `k`.
fn pair_index(m: &Vec<(String, String)>, k: &Vec<char>) -> (r: Option<usize>)
    ensures
        r matches Some(i) ==> key_index(pairs_of(m@), k@) == Some(i as int),
        r is None ==> key_index(pairs_of(m@), k@) is None,
        r matches Some(i) ==> i < m.len(),
{
    proof {
        lemma_key_index(pairs_of(m@), k@);
    }
    let mut i: usize = 0;
    while i < m.len()
        invariant
            i <= m.len(),
            forall|j: int| 0 <= j < i ==> pairs_of(m@)[j].0 != k@,
            key_index(pairs_of(m@), k@) matches Some(x) ==> 0 <= x < m.len() && pairs_of(m@)[x].0
                == k@ && forall|j: int| 0 <= j < x ==> pairs_of(m@)[j].0 != k@,
            key_index(pairs_of(m@), k@) is None ==> forall|j: int|
                0 <= j < m.len() ==> pairs_of(m@)[j].0 != k@,
        decreases m.len() - i,
    {
        let kc = chars_of(m[i].0.as_str());
        if crate::text::eq_chars(&kc, k) {
            assert(pairs_of(m@)[i as int].0 == k@);
            return Some(i);
        }
        i = i + 1;
    }
    None
}

/// The index of the first entry of `v` with key `k`.
fn entry_index(v: &Vec<(String, VarAccess)>, k: &Vec<char>) -> (r: Option<usize>)
    ensures
        r matches Some(i) ==> key_index(entries_of(v@), k@) == Some(i as int),
        r is None ==> key_index(entries_of(v@), k@) is None,
        r matches Some(i) ==> i < v.len(),
{
    proof {
        lemma_key_index(entries_of(v@), k@);
    }
    let mut i: usize = 0;
    while i < v.len()
        invariant
            i <= v.len(),
            forall|j: int| 0 <= j < i ==> entries_of(v@)[j].0 != k@,
            key_index(entries_of(v@), k@) matches Some(x) ==> 0 <= x < v.len() && entries_of(
                v@,
            )[x].0 == k@ && forall|j: int| 0 <= j < x ==> entries_of(v@)[j].0 != k@,
            key_index(entries_of(v@), k@) is None ==> forall|j: int|
                0 <= j < v.len() ==> entries_of(v@)[j].0 != k@,
        decreases v.len() - i,
    {
        let kc = chars_of(v[i].0.as_str());
        if crate::text::eq_chars(&kc, k) {
            assert(entries_of(v@)[i as int].0 == k@);
            return Some(i);
        }
        i = i + 1;
    }
    None
}

/// Sets the value of key `k` in `m` (`put`).
fn put_pair(m: &mut Vec<(String, String)>, k: &Vec<char>, value: String)
    ensures
        pairs_of(final(m)@) == put(pairs_of(old(m)@), k@, value@),
{
    let ks = string_of(k, 0, k.len());
    assert(k@.subrange(0, k@.len() as int) =~= k@);
    match pair_index(m, k) {
        Some(i) => {
            let _ = m.remove(i);
            m.insert(i, (ks, value));
            assert(pairs_of(m@) =~= pairs_of(old(m)@).update(i as int, (k@, value@)));
        },
        None => {
            m.push((ks, value));
            assert(pairs_of(m@) =~= pairs_of(old(m)@).push((k@, value@)));
        },
    }
}

/// Sets the entry of key `k` in `v` to the raw value `value` (`put`).
fn put_leaf(v: &mut Vec<(String, VarAccess)>, k: &Vec<char>, value: String)
    ensures
        entries_of(final(v)@) == put(entries_of(old(v)@), k@, VarNode::Leaf(value@)),
{
    let ks = string_of(k, 0, k.len());
    assert(k@.subrange(0, k@.len() as int) =~= k@);
    match entry_index(v, k) {
        Some(i) => {
            let _ = v.remove(i);
            v.insert(i, (ks, VarAccess::Value(value)));
            assert(entries_of(v@) =~= entries_of(old(v)@).update(
                i as int,
                (k@, VarNode::Leaf(value@)),
            ));
        },
        None => {
            v.push((ks, VarAccess::Value(value)));
            assert(entries_of(v@) =~= entries_of(old(v)@).push((k@, VarNode::Leaf(value@))));
        },
    }
}

/// Whether `key` starts with `p`.
fn starts_with(key: &Vec<char>, p: &Vec<char>) -> (r: bool)
    ensures
        r == is_prefix(p@, key@),
{
    if p.len() > key.len() {
        return false;
    }
    let mut i: usize = 0;
    while i < p.len()
        invariant
            p.len() <= key.len(),
            i <= p.len(),
            forall|k: int| 0 <= k < i ==> key@[k] == p@[k],
        decreases p.len() - i,
    {
        if key[i] != p[i] {
            assert(key@.take(p.len() as int)[i as int] != p@[i as int]);
            return false;
        }
        i = i + 1;
    }
    assert(key@.take(p.len() as int) =~= p@);
    true
}

/// The field names in the forms that grouping needs.
struct FieldNames {
    names: Vec<Vec<char>>,
    cmps: Vec<Vec<char>>,
}

impl FieldNames {
    spec fn wf(&self, names: Seq<Seq<char>>, upper: bool) -> bool {
        &&& self.names.len() == names.len()
        &&& self.cmps.len() == names.len()
        &&& forall|i: int| 0 <= i < names.len() ==> (#[trigger] self.names@[i])@ == names[i]
        &&& forall|i: int|
            0 <= i < names.len() ==> (#[trigger] self.cmps@[i])@ == cmp_name(names[i], upper)
    }

    fn new(fields: &[&str], upper: bool) -> (r: FieldNames)
        ensures
            r.wf(names_of(fields@), upper),
    {
        let mut r = FieldNames { names: Vec::new(), cmps: Vec::new() };
        let mut i: usize = 0;
        while i < fields.len()
            invariant
                i <= fields.len(),
                r.wf(names_of(fields@).take(i as int), upper),
            decreases fields.len() - i,
        {
            let f: &str = fields[i];
            let n = chars_of(f);
            let c = if upper {
                let u = to_upper(f);
                chars_of(u.as_str())
            } else {
                chars_of(f)
            };
            r.names.push(n);
            r.cmps.push(c);
            i = i + 1;
            assert(names_of(fields@).take(i as int)[i - 1] == f@);
        }
        assert(names_of(fields@).take(i as int) =~= names_of(fields@));
        r
    }

    /// The field that `key` selects (`best_field`).
    fn best(&self, key: &Vec<char>, Ghost(names): Ghost<Seq<Seq<char>>>, upper: bool) -> (r: Option<usize>)
        requires
            self.wf(names, upper),
        ensures
            r matches Some(j) ==> best_field(key@, names, upper, names.len() as int) == Some(j as int),
            r is None ==> best_field(key@, names, upper, names.len() as int) is None,
            r matches Some(j) ==> j < names.len() && is_prefix(cmp_name(names[j as int], upper), key@),
    {
        proof {
            lemma_best_field(key@, names, upper, names.len() as int);
        }
        let mut best: Option<usize> = None;
        let mut i: usize = 0;
        while i < self.names.len()
            invariant
                self.wf(names, upper),
                i <= names.len(),
                best matches Some(j) ==> best_field(key@, names, upper, i as int) == Some(j as int)
                    && j < i,
                best is None ==> best_field(key@, names, upper, i as int) is None,
            decreases names.len() - i,
        {
            if starts_with(key, &self.cmps[i]) {
                match best {
                    None => {
                        best = Some(i);
                    },
                    Some(j) => {
                        if self.names[j].len() <= self.names[i].len() {
                            best = Some(i);
                        }
                    },
                }
            }
            i = i + 1;
        }
        best
    }
}

/// Applies one pair to the grouping (`group_step`).
fn group_one(
    out: &mut Vec<(String, VarAccess)>,
    key: &Vec<char>,
    value: String,
    fields: &FieldNames,
    Ghost(names): Ghost<Seq<Seq<char>>>,
    upper: bool,
)
    requires
        fields.wf(names, upper),
    ensures
        entries_of(final(out)@) == group_step(entries_of(old(out)@), key@, value@, names, upper),
{
    match fields.best(key, Ghost(names), upper) {
        None => {
            put_leaf(out, key, value);
        },
        Some(j) => {
            let name = &fields.names[j];
            let cut = fields.cmps[j].len();
            let ghost suffix = key@.skip(cut as int);
            if cut == key.len() {
                assert(suffix.len() == 0);
                put_leaf(out, name, value);
            } else if key[cut] == '_' {
                assert(suffix[0] == '_');
                let sub = crate::text::sub_chars(key, cut + 1, key.len());
                assert(sub@ =~= suffix.drop_first());
                match entry_index(out, name) {
                    Some(i) => {
                        proof {
                            lemma_key_index(entries_of(out@), name@);
                        }
                        let (k, acc) = out.remove(i);
                        match acc {
                            VarAccess::Vars(mut m) => {
                                put_pair(&mut m, &sub, value);
                                out.insert(i, (k, VarAccess::Vars(m)));
                                assert(entries_of(out@) =~= entries_of(old(out)@).update(
                                    i as int,
                                    (name@, VarNode::Branch(put(pairs_of(old(out)@[i as int].1->Vars_0@), sub@, value@))),
                                ));
                            },
                            VarAccess::Value(s) => {
                                out.insert(i, (k, VarAccess::Value(s)));
                                assert(entries_of(out@) =~= entries_of(old(out)@));
                            },
                        }
                    },
                    None => {
                        let ns = string_of(name, 0, name.len());
                        let ss = string_of(&sub, 0, sub.len());
                        assert(name@.subrange(0, name@.len() as int) =~= name@);
                        assert(sub@.subrange(0, sub@.len() as int) =~= sub@);
                        let mut m: Vec<(String, String)> = Vec::new();
                        m.push((ss, value));
                        assert(pairs_of(m@) =~= seq![(sub@, value@)]);
                        out.push((ns, VarAccess::Vars(m)));
                        assert(entries_of(out@) =~= entries_of(old(out)@).push(
                            (name@, VarNode::Branch(seq![(sub@, value@)])),
                        ));
                    },
                }
            } else {
                assert(suffix[0] == key@[cut as int]);
            }
        },
    }
}

/// Groups flat pairs into the fields of a struct with the given field names
/// (`group_spec`).
///
/// A key equal to a field name (its uppercase form where `ident_upper`)
/// sets that field's value; a key `FIELD_REST` sets the entry `REST` of the
/// nested struct in that field, the longest matching field name winning; a
/// key that starts with no field name is kept under its own name. Later pairs
/// overwrite earlier ones with the same key.
pub fn group_vars(vars: Vec<(String, String)>, fields: &[&str], ident_upper: bool) -> (r: Vec<
    (String, VarAccess),
>)
    ensures
        entries_of(r@) == group_spec(pairs_of(vars@), names_of(fields@), ident_upper),
{
    let ghost names = names_of(fields@);
    let fs = FieldNames::new(fields, ident_upper);
    let mut out: Vec<(String, VarAccess)> = Vec::new();
    let mut i: usize = 0;
    while i < vars.len()
        invariant
            i <= vars.len(),
            fs.wf(names, ident_upper),
            entries_of(out@) == group_spec(pairs_of(vars@).take(i as int), names, ident_upper),
        decreases vars.len() - i,
    {
        let key = chars_of(vars[i].0.as_str());
        let value = copy_string(&vars[i].1);
        group_one(&mut out, &key, value, &fs, Ghost(names), ident_upper);
        assert(pairs_of(vars@).take(i + 1).drop_last() =~= pairs_of(vars@).take(i as int));
        i = i + 1;
    }
    assert(pairs_of(vars@).take(i as int) =~= pairs_of(vars@));
    out
}

/// The field that a key selects has the longest name among the fields whose
/// name the key starts with.
pub proof fn lemma_longest_match(key: Seq<char>, names: Seq<Seq<char>>, upper: bool, i: int)
    requires
        0 <= i < names.len(),
        field_matches(key, names, upper, i),
    ensures
        best_field(key, names, upper, names.len() as int) matches Some(j) && names[i].len()
            <= names[j].len(),
{
    lemma_longest_upto(key, names, upper, i, names.len() as int);
}

proof fn lemma_longest_upto(key: Seq<char>, names: Seq<Seq<char>>, upper: bool, i: int, n: int)
    requires
        0 <= i < n <= names.len(),
        field_matches(key, names, upper, i),
    ensures
        best_field(key, names, upper, n) matches Some(j) && names[i].len() <= names[j].len(),
    decreases n,
{
    if i < n - 1 {
        lemma_longest_upto(key, names, upper, i, n - 1);
    }
}

/// A key that equals the key form of a field name sets that field: after
/// the pairs `vars`, the field's entry holds the value of the last pair
/// when that pair's key names the field exactly.
pub proof fn lemma_last_leaf_wins(
    vars: Seq<(Seq<char>, Seq<char>)>,
    names: Seq<Seq<char>>,
    upper: bool,
    j: int,
)
    requires
        vars.len() > 0,
        best_field(vars.last().0, names, upper, names.len() as int) == Some(j),
        vars.last().0 == cmp_name(names[j], upper),
    ensures
        key_index(group_spec(vars, names, upper), names[j]) matches Some(i) && group_spec(
            vars,
            names,
            upper,
        )[i].1 == VarNode::Leaf(vars.last().1),
{
    let before = group_spec(vars.drop_last(), names, upper);
    let after = group_spec(vars, names, upper);
    let key = vars.last().0;
    assert(key.skip(cmp_name(names[j], upper).len() as int).len() == 0);
    assert(after == put(before, names[j], VarNode::Leaf(vars.last().1)));
    lemma_key_index(before, names[j]);
    match key_index(before, names[j]) {
        Some(i) => {
            assert(after[i].0 == names[j]);
            lemma_key_index(after, names[j]);
            assert(forall|k: int| 0 <= k < i ==> after[k] == before[k]);
        },
        None => {
            let n = before.len() as int;
            assert(after[n].0 == names[j]);
            lemma_key_index(after, names[j]);
            assert(forall|k: int| 0 <= k < n ==> after[k] == before[k]);
        },
    }
}

pub open spec fn keys_unique<V>(e: Seq<(Seq<char>, V)>) -> bool {
    forall|i: int, j: int| 0 <= i < j < e.len() ==> #[trigger] e[i].0 != #[trigger] e[j].0
}

/// Keys are unique among the entries, and among the entries of each nested
/// struct.
pub open spec fn grouping_wf(e: Seq<(Seq<char>, VarNode)>) -> bool {
    &&& keys_unique(e)
    &&& forall|i: int|
        0 <= i < e.len() ==> match #[trigger] e[i].1 {
            VarNode::Branch(m) => keys_unique(m),
            VarNode::Leaf(_) => true,
        }
}

proof fn lemma_put_unique<V>(e: Seq<(Seq<char>, V)>, k: Seq<char>, v: V)
    requires
        keys_unique(e),
    ensures
        keys_unique(put(e, k, v)),
        put(e, k, v).len() >= e.len(),
        forall|i: int| 0 <= i < e.len() ==> (#[trigger] put(e, k, v)[i]).0 == e[i].0,
{
    lemma_key_index(e, k);
    let r = put(e, k, v);
    match key_index(e, k) {
        Some(x) => {
            assert forall|i: int, j: int| 0 <= i < j < r.len() implies #[trigger] r[i].0
                != #[trigger] r[j].0 by {
                assert(r[i].0 == e[i].0);
                assert(r[j].0 == e[j].0);
            }
        },
        None => {
            assert forall|i: int, j: int| 0 <= i < j < r.len() implies #[trigger] r[i].0
                != #[trigger] r[j].0 by {
                assert(r[i].0 == e[i].0);
                if j < e.len() {
                    assert(r[j].0 == e[j].0);
                }
            }
        },
    }
}

/// Grouping never gives two entries with one key, at the top or within a
/// nested struct.
pub proof fn lemma_grouping_wf(vars: Seq<(Seq<char>, Seq<char>)>, names: Seq<Seq<char>>, upper: bool)
    ensures
        grouping_wf(group_spec(vars, names, upper)),
    decreases vars.len(),
{
    if vars.len() > 0 {
        let e = group_spec(vars.drop_last(), names, upper);
        lemma_grouping_wf(vars.drop_last(), names, upper);
        let key = vars.last().0;
        let value = vars.last().1;
        let r = group_spec(vars, names, upper);
        assert(r == group_step(e, key, value, names, upper));
        match best_field(key, names, upper, names.len() as int) {
            None => {
                lemma_put_unique(e, key, VarNode::Leaf(value));
                lemma_key_index(e, key);
            },
            Some(j) => {
                let name = names[j];
                let suffix = key.skip(cmp_name(name, upper).len() as int);
                lemma_key_index(e, name);
                if suffix.len() == 0 {
                    lemma_put_unique(e, name, VarNode::Leaf(value));
                } else if suffix[0] == '_' {
                    let sub = suffix.drop_first();
                    match key_index(e, name) {
                        Some(i) => match e[i].1 {
                            VarNode::Branch(m) => {
                                lemma_put_unique(m, sub, value);
                                assert forall|a: int, b: int| 0 <= a < b < r.len() implies #[trigger] r[a].0
                                    != #[trigger] r[b].0 by {
                                    assert(r[a].0 == e[a].0);
                                    assert(r[b].0 == e[b].0);
                                }
                            },
                            VarNode::Leaf(_) => {},
                        },
                        None => {
                            assert forall|a: int, b: int| 0 <= a < b < r.len() implies #[trigger] r[a].0
                                != #[trigger] r[b].0 by {
                                assert(r[a].0 == e[a].0);
                                if b < e.len() {
                                    assert(r[b].0 == e[b].0);
                                }
                            }
                            assert(keys_unique(seq![(sub, value)]));
                        },
                    }
                }
            },
        }
        assert forall|i: int| 0 <= i < r.len() implies match #[trigger] r[i].1 {
            VarNode::Branch(m) => keys_unique(m),
            VarNode::Leaf(_) => true,
        } by {
            if i < e.len() {
                assert(match e[i].1 {
                    VarNode::Branch(m) => keys_unique(m),
                    VarNode::Leaf(_) => true,
                });
            }
        }
    }
}

/// The key of the entry that a pair with key `key` is grouped under: the
/// field it selects, or its own key where it selects none.
pub open spec fn target_key(key: Seq<char>, names: Seq<Seq<char>>, upper: bool) -> Seq<char> {
    match best_field(key, names, upper, names.len() as int) {
        None => key,
        Some(j) => names[j],
    }
}

/// A pair with key `key` sets entry `f` to a raw value: it names field `f`
/// exactly, or selects no field and is itself keyed `f`.
pub open spec fn sets_leaf_of(key: Seq<char>, names: Seq<Seq<char>>, upper: bool, f: Seq<char>) -> bool {
    match best_field(key, names, upper, names.len() as int) {
        None => key == f,
        Some(j) => names[j] == f && key == cmp_name(f, upper),
    }
}

proof fn lemma_key_index_first<V>(e: Seq<(Seq<char>, V)>, k: Seq<char>, i: int)
    requires
        0 <= i < e.len(),
        e[i].0 == k,
        forall|j: int| 0 <= j < i ==> e[j].0 != k,
    ensures
        key_index(e, k) == Some(i),
{
    lemma_key_index(e, k);
}

/// A pair changes no entry but the one it is grouped under (`target_key`):
/// every other key keeps its position and its value.
pub proof fn lemma_step_frame(
    e: Seq<(Seq<char>, VarNode)>,
    key: Seq<char>,
    value: Seq<char>,
    names: Seq<Seq<char>>,
    upper: bool,
    k: Seq<char>,
)
    requires
        k != target_key(key, names, upper),
    ensures
        key_index(group_step(e, key, value, names, upper), k) == key_index(e, k),
        key_index(e, k) matches Some(i) ==> group_step(e, key, value, names, upper)[i] == e[i],
{
    let r = group_step(e, key, value, names, upper);
    let tk = target_key(key, names, upper);
    lemma_key_index(e, tk);
    lemma_key_index(e, k);
    lemma_best_field(key, names, upper, names.len() as int);
    assert(r.len() >= e.len());
    assert(forall|x: int| 0 <= x < e.len() ==> (#[trigger] r[x]).0 == e[x].0);
    assert(forall|x: int| e.len() <= x < r.len() ==> (#[trigger] r[x]).0 == tk);
    assert(forall|x: int| 0 <= x < e.len() && e[x].0 != tk ==> #[trigger] r[x] == e[x]);
    match key_index(e, k) {
        Some(i) => {
            lemma_key_index_first(r, k, i);
        },
        None => {
            lemma_key_index(r, k);
        },
    }
}

proof fn lemma_leaf_upto(
    vars: Seq<(Seq<char>, Seq<char>)>,
    names: Seq<Seq<char>>,
    upper: bool,
    p: int,
    j: int,
    n: int,
)
    requires
        0 <= p < n <= vars.len(),
        best_field(vars[p].0, names, upper, names.len() as int) == Some(j),
        vars[p].0 == cmp_name(names[j], upper),
        forall|q: int| p < q < vars.len() ==> !sets_leaf_of(#[trigger] vars[q].0, names, upper, names[j]),
    ensures
        key_index(group_spec(vars.take(n), names, upper), names[j]) matches Some(i) && group_spec(
            vars.take(n),
            names,
            upper,
        )[i].1 == VarNode::Leaf(vars[p].1),
    decreases n,
{
    let f = names[j];
    if n == p + 1 {
        assert(vars.take(n).last() == vars[p]);
        lemma_last_leaf_wins(vars.take(n), names, upper, j);
    } else {
        lemma_leaf_upto(vars, names, upper, p, j, n - 1);
        assert(vars.take(n).drop_last() =~= vars.take(n - 1));
        let e = group_spec(vars.take(n - 1), names, upper);
        let (key, value) = vars[n - 1];
        assert(vars.take(n).last() == vars[n - 1]);
        assert(!sets_leaf_of(vars[n - 1].0, names, upper, f));
        if target_key(key, names, upper) != f {
            lemma_step_frame(e, key, value, names, upper, f);
        } else {
            lemma_best_field(key, names, upper, names.len() as int);
            let j2 = best_field(key, names, upper, names.len() as int)->0;
            let c = cmp_name(names[j2], upper);
            assert(key.take(c.len() as int) == c);
            if key.len() == c.len() {
                assert(key =~= c);
            }
            assert(key.skip(c.len() as int).len() > 0);
        }
    }
}

/// The last pair that sets an entry exactly wins: where the pair at `p`
/// names field `j` exactly and no later pair sets that field's entry to a
/// raw value, the field's entry holds the value of the pair at `p`.
pub proof fn lemma_last_exact_leaf_wins(
    vars: Seq<(Seq<char>, Seq<char>)>,
    names: Seq<Seq<char>>,
    upper: bool,
    p: int,
    j: int,
)
    requires
        0 <= p < vars.len(),
        best_field(vars[p].0, names, upper, names.len() as int) == Some(j),
        vars[p].0 == cmp_name(names[j], upper),
        forall|q: int| p < q < vars.len() ==> !sets_leaf_of(#[trigger] vars[q].0, names, upper, names[j]),
    ensures
        key_index(group_spec(vars, names, upper), names[j]) matches Some(i) && group_spec(
            vars,
            names,
            upper,
        )[i].1 == VarNode::Leaf(vars[p].1),
{
    lemma_leaf_upto(vars, names, upper, p, j, vars.len() as int);
    assert(vars.take(vars.len() as int) =~= vars);
}

/// A pair `FIELD_REST` whose longest matching field is `j` adds `(REST,
/// value)` to the nested entries of that field, where the field holds no raw
/// value; by `lemma_step_frame` it leaves every other entry alone.
pub proof fn lemma_nested_pair_attached(
    e: Seq<(Seq<char>, VarNode)>,
    key: Seq<char>,
    value: Seq<char>,
    names: Seq<Seq<char>>,
    upper: bool,
    j: int,
)
    requires
        best_field(key, names, upper, names.len() as int) == Some(j),
        key.len() > cmp_name(names[j], upper).len(),
        key[cmp_name(names[j], upper).len() as int] == '_',
        key_index(e, names[j]) matches Some(i) ==> e[i].1 is Branch,
    ensures
        ({
            let r = group_step(e, key, value, names, upper);
            let sub = key.skip(cmp_name(names[j], upper).len() as int + 1);
            key_index(r, names[j]) matches Some(i) && r[i].1 matches VarNode::Branch(m) && key_index(
                m,
                sub,
            ) matches Some(x) && m[x].1 == value
        }),
{
    let r = group_step(e, key, value, names, upper);
    let c = cmp_name(names[j], upper);
    let suffix = key.skip(c.len() as int);
    let sub = key.skip(c.len() as int + 1);
    assert(suffix[0] == '_');
    assert(suffix.drop_first() =~= sub);
    lemma_key_index(e, names[j]);
    match key_index(e, names[j]) {
        Some(i) => {
            let m = e[i].1->Branch_0;
            lemma_key_index(m, sub);
            lemma_key_index(put(m, sub, value), sub);
            lemma_key_index_first(r, names[j], i);
            match key_index(m, sub) {
                Some(x) => {
                    lemma_key_index_first(put(m, sub, value), sub, x);
                },
                None => {
                    lemma_key_index_first(put(m, sub, value), sub, m.len() as int);
                },
            }
        },
        None => {
            lemma_key_index_first(r, names[j], e.len() as int);
            lemma_key_index_first(seq![(sub, value)], sub, 0);
        },
    }
}

} // verus!
