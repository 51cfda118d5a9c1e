//! Plain records that the extraction side stores and the analysis reads.

use vstd::prelude::*;
use std::collections::HashMap;
use vstd::string::*;

verus! {

/// Where a call occurs in the source.
#[derive(Clone, Debug)]
pub struct SourceLocation {
    pub file: String,
    pub line_no: usize,
}

/// The annotations recorded against an unparameterised function name.
#[derive(Clone, Debug)]
pub struct Marking {
    pub require_audit: Option<String>,
    pub audited: Option<String>,
    pub is_entry_point: bool,
}

/// A marking together with the place of the annotated item.
#[derive(Clone, Debug)]
pub struct MarkedItem {
    pub marking: Marking,
    pub src_loc: SourceLocation,
}

/// One call site of a caller.
#[derive(Clone, Debug)]
pub struct DepEdge {
    pub callee_def: String,
    pub is_lang_item: bool,
    pub type_params: Vec<String>,
    pub src_loc: SourceLocation,
}

/// The text of an optional group name.
pub open spec fn opt_view(o: Option<String>) -> Option<Seq<char>> {
    match o {
        Some(s) => Some(s@),
        None => None,
    }
}

/// The comma-terminated list of type arguments: `T1,T2,`.
pub open spec fn type_args_text(tps: Seq<Seq<char>>) -> Seq<char>
    decreases tps.len(),
{
    if tps.len() == 0 {
        Seq::empty()
    } else {
        type_args_text(tps.drop_last()) + tps.last() + seq![',']
    }
}

/// The identifier of a callee instantiated with the given type arguments.
pub open spec fn instance_name(def: Seq<char>, tps: Seq<Seq<char>>) -> Seq<char> {
    def + seq!['<'] + type_args_text(tps) + seq!['>']
}

/// Position of the first `<` at or after `i`, or the length when there is none.
pub open spec fn type_args_start(s: Seq<char>, i: nat) -> nat
    decreases s.len() - i,
{
    if i >= s.len() {
        s.len()
    } else if s[i as int] == '<' {
        i
    } else {
        type_args_start(s, i + 1)
    }
}

/// An identifier with its type-argument suffix (from the first `<` on) removed.
pub open spec fn definition_name(s: Seq<char>) -> Seq<char> {
    s.take(type_args_start(s, 0) as int)
}

impl SourceLocation {
    /// A field-by-field copy.
    pub fn copied(&self) -> (r: SourceLocation)
        ensures
            r.file@ == self.file@,
            r.line_no == self.line_no,
    {
        SourceLocation { file: self.file.clone(), line_no: self.line_no }
    }
}

/// The marking stored under `key`: the first record with that key.
pub open spec fn lookup_marking(db: Seq<(String, MarkedItem)>, key: Seq<char>) -> Option<Marking>
    decreases db.len(),
{
    if db.len() == 0 {
        None
    } else if db[0].0@ == key {
        Some(db[0].1.marking)
    } else {
        lookup_marking(db.drop_first(), key)
    }
}

/// Looks up the marking recorded under `key`.
pub fn find_marking<'a>(db: &'a Vec<(String, MarkedItem)>, key: &str) -> (r: Option<&'a Marking>)
    ensures
        match r {
            Some(m) => lookup_marking(db@, key@) == Some(*m),
            None => lookup_marking(db@, key@).is_none(),
        },
{
    let k = String::from_str(key);
    let mut i: usize = 0;
    assert(db@.skip(0) =~= db@);
    while i < db.len()
        invariant
            i <= db.len(),
            k@ == key@,
            lookup_marking(db@, key@) == lookup_marking(db@.skip(i as int), key@),
        decreases db.len() - i,
    {
        assert(db@.skip(i as int).drop_first() =~= db@.skip(i + 1));
        if db[i].0 == k {
            return Some(&db[i].1.marking);
        }
        i = i + 1;
    }
    None
}

/// The marking recorded for an item that already had `stored`: a group that
/// `marking` names replaces the stored one, and the entry-point flag stays set
/// once set.
pub open spec fn merged(stored: Marking, marking: Marking) -> Marking {
    Marking {
        require_audit: if marking.require_audit.is_some() { marking.require_audit } else { stored.require_audit },
        audited: if marking.audited.is_some() { marking.audited } else { stored.audited },
        is_entry_point: marking.is_entry_point || stored.is_entry_point,
    }
}

fn copy_group(g: &Option<String>) -> (r: Option<String>)
    ensures
        r == *g,
{
    match g {
        Some(s) => Some(s.clone()),
        None => None,
    }
}

/// Records `marking` for `item`, merging it into what is already recorded.
pub fn record_marking(result: &mut HashMap<u64, Marking>, item: u64, marking: Marking)
    ensures
        final(result)@ == old(result)@.insert(
            item,
            match old(result)@.get(item) {
                Some(stored) => merged(stored, marking),
                None => marking,
            },
        ),
{
    broadcast use vstd::std_specs::hash::group_hash_axioms;

    let value = match result.get(&item) {
        Some(stored) => Marking {
            require_audit: if marking.require_audit.is_some() { marking.require_audit } else { copy_group(&stored.require_audit) },
            audited: if marking.audited.is_some() { marking.audited } else { copy_group(&stored.audited) },
            is_entry_point: marking.is_entry_point || stored.is_entry_point,
        },
        None => marking,
    };
    result.insert(item, value);
}

impl Marking {
    /// Whether the marking carries any annotation at all.
    pub open spec fn spec_annotated(&self) -> bool {
        self.is_entry_point || self.require_audit.is_some() || self.audited.is_some()
    }

    pub fn annotated(&self) -> (r: bool)
        ensures
            r == self.spec_annotated(),
    {
        self.is_entry_point || self.require_audit.is_some() || self.audited.is_some()
    }
}

impl DepEdge {
    pub open spec fn type_params_view(&self) -> Seq<Seq<char>> {
        self.type_params@.map_values(|t: String| t@)
    }

    /// The identifier of the callee, instantiated with the type arguments of
    /// this call site.
    pub open spec fn spec_full_callee_name(&self) -> Seq<char> {
        instance_name(self.callee_def@, self.type_params_view())
    }

    pub fn full_callee_name(&self) -> (r: String)
        ensures
            r@ == self.spec_full_callee_name(),
    {
        proof {
            reveal_strlit("<");
            reveal_strlit(",");
            reveal_strlit(">");
            assert("<"@ =~= seq!['<']);
            assert(","@ =~= seq![',']);
            assert(">"@ =~= seq!['>']);
        }
        let mut ret = self.callee_def.clone();
        ret.append("<");
        let mut i: usize = 0;
        while i < self.type_params.len()
            invariant
                i <= self.type_params.len(),
                ret@ == self.callee_def@ + seq!['<'] + type_args_text(
                    self.type_params_view().take(i as int),
                ),
            decreases self.type_params.len() - i,
        {
            let ghost prev = ret@;
            ret.append(self.type_params[i].as_str());
            ret.append(",");
            proof {
                let tv = self.type_params_view();
                assert(","@ =~= seq![',']) by { reveal_strlit(","); }
                assert(tv.take(i + 1).drop_last() =~= tv.take(i as int));
                assert(tv.take(i + 1).last() == self.type_params@[i as int]@);
                assert(ret@ =~= self.callee_def@ + seq!['<'] + type_args_text(tv.take(i + 1)));
            }
            i = i + 1;
        }
        proof {
            assert(self.type_params_view().take(i as int) =~= self.type_params_view());
        }
        ret.append(">");
        ret
    }
}

/// Strips the type-argument suffix (from the first `<` on) of an identifier;
/// an identifier without one is returned whole.
pub fn without_type_param(mono_name: &str) -> (r: &str)
    ensures
        r@ == definition_name(mono_name@),
{
    let n = mono_name.unicode_len();
    let mut i: usize = 0;
    while i < n
        invariant
            n == mono_name@.len(),
            i <= n,
            type_args_start(mono_name@, i as nat) == type_args_start(mono_name@, 0),
        decreases n - i,
    {
        if mono_name.get_char(i) == '<' {
            return mono_name.substring_char(0, i);
        }
        i = i + 1;
    }
    mono_name.substring_char(0, n)
}

} // verus!
