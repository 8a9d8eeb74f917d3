//! The entry point: a collection of flat key/value pairs and the options to
//! read it with.
use crate::keytree::{copy_string, group_spec, group_vars, is_prefix, names_of, pairs_of, VarAccess, VarNode, entries_of};
use crate::options::{basic_options, Options};
use crate::text::{chars_of, string_of};
use vstd::prelude::*;

verus! {

/// The pairs of `vars` whose key starts with `prefix`, with the prefix cut
/// off the key, in order.
pub open spec fn strip_prefixed(vars: Seq<(Seq<char>, Seq<char>)>, prefix: Seq<char>) -> Seq<
    (Seq<char>, Seq<char>),
>
    decreases vars.len(),
{
    if vars.len() == 0 {
        Seq::empty()
    } else {
        let rest = strip_prefixed(vars.drop_last(), prefix);
        let (k, v) = vars.last();
        if is_prefix(prefix, k) {
            rest.push((k.skip(prefix.len() as int), v))
        } else {
            rest
        }
    }
}

/// Every pair as an entry of its own, holding its raw value.
pub open spec fn leaves(vars: Seq<(Seq<char>, Seq<char>)>) -> Seq<(Seq<char>, VarNode)> {
    vars.map_values(|p: (Seq<char>, Seq<char>)| (p.0, VarNode::Leaf(p.1)))
}

/// Reads a collection of flat key/value pairs.
pub struct Deserializer {
    pub vars: Vec<(String, String)>,
    pub options: Options,
}

impl Deserializer {
    /// The pairs `vars`, read with the basic options.
    pub fn from_vars(vars: Vec<(String, String)>) -> (r: Deserializer)
        ensures
            r.vars@ == vars@,
            r.options == basic_options(),
    {
        Deserializer { vars, options: Options::basic() }
    }

    /// The pairs of `vars` whose key starts with `prefix`, keyed by the rest
    /// of the key, read with the basic options.
    pub fn from_prefixed_vars(vars: Vec<(String, String)>, prefix: &str) -> (r: Deserializer)
        ensures
            pairs_of(r.vars@) == strip_prefixed(pairs_of(vars@), prefix@),
            r.options == basic_options(),
    {
        let p = chars_of(prefix);
        let mut out: Vec<(String, String)> = Vec::new();
        let mut i: usize = 0;
        while i < vars.len()
            invariant
                i <= vars.len(),
                p@ == prefix@,
                pairs_of(out@) == strip_prefixed(pairs_of(vars@).take(i as int), prefix@),
            decreases vars.len() - i,
        {
            let k = chars_of(vars[i].0.as_str());
            let vc = chars_of(vars[i].1.as_str());
            assert(pairs_of(vars@).take(i + 1).drop_last() =~= pairs_of(vars@).take(i as int));
            if p.len() <= k.len() && crate::text::eq_chars(&crate::text::sub_chars(&k, 0, p.len()), &p) {
                assert(k@.subrange(0, p.len() as int) =~= k@.take(p.len() as int));
                let key = string_of(&k, p.len(), k.len());
                let value = string_of(&vc, 0, vc.len());
                assert(k@.subrange(p.len() as int, k.len() as int) =~= k@.skip(p.len() as int));
                assert(vc@.subrange(0, vc.len() as int) =~= vc@);
                out.push((key, value));
                assert(pairs_of(out@) =~= strip_prefixed(pairs_of(vars@).take(i as int), prefix@).push(
                    (k@.skip(p.len() as int), vc@),
                ));
            } else {
                proof {
                    if p.len() <= k.len() {
                        assert(k@.subrange(0, p.len() as int) =~= k@.take(p.len() as int));
                    }
                }
            }
            i = i + 1;
        }
        assert(pairs_of(vars@).take(i as int) =~= pairs_of(vars@));
        Deserializer { vars: out, options: Options::basic() }
    }

    /// The same pairs, read with `options`.
    pub fn with_options(self, options: Options) -> (r: Deserializer)
        ensures
            r.vars@ == self.vars@,
            r.options == options,
    {
        Deserializer { vars: self.vars, options }
    }

    /// The entries for a request of no particular shape, or of a map: every
    /// pair as it is.
    pub fn into_entries(self) -> (r: Vec<(String, VarAccess)>)
        ensures
            entries_of(r@) == leaves(pairs_of(self.vars@)),
    {
        let mut out: Vec<(String, VarAccess)> = Vec::new();
        let mut i: usize = 0;
        while i < self.vars.len()
            invariant
                i <= self.vars.len(),
                entries_of(out@) == leaves(pairs_of(self.vars@).take(i as int)),
            decreases self.vars.len() - i,
        {
            let k = copy_string(&self.vars[i].0);
            let v = copy_string(&self.vars[i].1);
            let ghost before = out@;
            let ghost pair = (k@, VarNode::Leaf(v@));
            out.push((k, VarAccess::Value(v)));
            assert(entries_of(out@) =~= entries_of(before).push(pair));
            assert(leaves(pairs_of(self.vars@).take(i + 1)) =~= leaves(pairs_of(self.vars@).take(i as int)).push(pair));
            i = i + 1;
        }
        assert(pairs_of(self.vars@).take(i as int) =~= pairs_of(self.vars@));
        out
    }

    /// The entries for a struct request with the given field names: the
    /// pairs grouped by field (`group_vars`).
    pub fn into_struct_entries(self, fields: &[&str]) -> (r: Vec<(String, VarAccess)>)
        ensures
            entries_of(r@) == group_spec(pairs_of(self.vars@), names_of(fields@), self.options.ident_upper),
    {
        group_vars(self.vars, fields, self.options.ident_upper)
    }
}

} // verus!
