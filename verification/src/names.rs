//! Names inside the compiler: scopes of aliases, declaration instances and
//! the resolution of dotted names. Names are held as their UTF-8 bytes.
use vstd::prelude::*;

use crate::text::{append_bytes, bytes_order, copy_bytes};

verus! {

/// A list of `(key, value)` name pairs; later pairs shadow earlier ones.
pub type Pairs = Vec<(Vec<u8>, Vec<u8>)>;

pub open spec fn pairs_view(v: Seq<(Vec<u8>, Vec<u8>)>) -> Seq<(Seq<u8>, Seq<u8>)> {
    Seq::new(v.len(), |i: int| (v[i].0@, v[i].1@))
}

/// The value of the last pair with the given key.
pub open spec fn lookup(pairs: Seq<(Seq<u8>, Seq<u8>)>, key: Seq<u8>) -> Option<Seq<u8>>
    decreases pairs.len(),
{
    if pairs.len() == 0 {
        None
    } else if pairs.last().0 == key {
        Some(pairs.last().1)
    } else {
        lookup(pairs.drop_last(), key)
    }
}

/// The value of the last pair with the given key.
pub fn lookup_pair(pairs: &Pairs, key: &[u8]) -> (r: Option<Vec<u8>>)
    ensures
        match r {
            Some(v) => lookup(pairs_view(pairs@), key@) == Some(v@),
            None => lookup(pairs_view(pairs@), key@) is None,
        },
{
    let mut i = pairs.len();
    assert(pairs_view(pairs@).subrange(0, i as int) =~= pairs_view(pairs@));
    while i > 0
        invariant
            i <= pairs@.len(),
            lookup(pairs_view(pairs@), key@) == lookup(pairs_view(pairs@).subrange(0, i as int), key@),
        decreases i,
    {
        let ghost pre = pairs_view(pairs@).subrange(0, i as int);
        assert(pre.drop_last() =~= pairs_view(pairs@).subrange(0, i - 1));
        if bytes_order(pairs[i - 1].0.as_slice(), key) == 0 {
            return Some(copy_bytes(pairs[i - 1].1.as_slice()));
        }
        i = i - 1;
    }
    None
}

/// The position of the first `.` in a name.
pub open spec fn dot_index(s: Seq<u8>, from: int) -> Option<int>
    decreases s.len() - from,
{
    if from < 0 || from >= s.len() {
        None
    } else if s[from] == 46 {
        Some(from)
    } else {
        dot_index(s, from + 1)
    }
}

pub proof fn lemma_dot_index(s: Seq<u8>, from: int)
    ensures
        match dot_index(s, from) {
            Some(i) => from <= i < s.len() && s[i] == 46,
            None => true,
        },
    decreases s.len() - from,
{
    if !(from < 0 || from >= s.len()) && s[from] != 46 {
        lemma_dot_index(s, from + 1);
    }
}

pub fn find_dot(s: &[u8]) -> (r: Option<usize>)
    ensures
        match r {
            Some(i) => dot_index(s@, 0) == Some(i as int),
            None => dot_index(s@, 0) is None,
        },
{
    let mut i: usize = 0;
    while i < s.len()
        invariant
            i <= s@.len(),
            dot_index(s@, i as int) == dot_index(s@, 0),
        decreases s@.len() - i,
    {
        if s[i] == 46 {
            return Some(i);
        }
        i = i + 1;
    }
    None
}

/// A copy of `s[from..to]`.
pub fn sub_bytes(s: &[u8], from: usize, to: usize) -> (r: Vec<u8>)
    requires
        from <= to <= s@.len(),
    ensures
        r@ == s@.subrange(from as int, to as int),
{
    let mut v: Vec<u8> = Vec::new();
    let mut i = from;
    while i < to
        invariant
            from <= i <= to <= s@.len(),
            v@ == s@.subrange(from as int, i as int),
        decreases to - i,
    {
        v.push(s[i]);
        assert(v@ =~= s@.subrange(from as int, i + 1));
        i = i + 1;
    }
    v
}

/// `prefix.name`
pub open spec fn dotted(prefix: Seq<u8>, name: Seq<u8>) -> Seq<u8> {
    prefix + seq![46u8] + name
}

pub fn join_dotted(prefix: &[u8], name: &[u8]) -> (r: Vec<u8>)
    ensures
        r@ == dotted(prefix@, name@),
{
    let mut v = copy_bytes(prefix);
    v.push(46);
    append_bytes(&mut v, name);
    assert(v@ =~= dotted(prefix@, name@));
    v
}

/// An instance of a declaration: its alias, the declaration (by its index
/// among the program's statements), its resolved arguments, whether it is
/// applicative, and its fields (parameters and declared members) mapped to
/// the names they stand for.
pub struct Instance {
    pub alias: Vec<u8>,
    pub decl: usize,
    pub args: Vec<Vec<u8>>,
    pub applicative: bool,
    pub fields: Pairs,
}

pub struct SInstance {
    pub alias: Seq<u8>,
    pub decl: usize,
    pub args: Seq<Seq<u8>>,
    pub applicative: bool,
    pub fields: Seq<(Seq<u8>, Seq<u8>)>,
}

pub open spec fn names_view(v: Seq<Vec<u8>>) -> Seq<Seq<u8>> {
    Seq::new(v.len(), |i: int| v[i]@)
}

impl View for Instance {
    type V = SInstance;

    open spec fn view(&self) -> SInstance {
        SInstance {
            alias: self.alias@,
            decl: self.decl,
            args: names_view(self.args@),
            applicative: self.applicative,
            fields: pairs_view(self.fields@),
        }
    }
}

pub open spec fn insts_view(v: Seq<Instance>) -> Seq<SInstance> {
    Seq::new(v.len(), |i: int| v[i]@)
}

/// The last instance with the given alias.
pub open spec fn find_instance(insts: Seq<SInstance>, alias: Seq<u8>) -> Option<SInstance>
    decreases insts.len(),
{
    if insts.len() == 0 {
        None
    } else if insts.last().alias == alias {
        Some(insts.last())
    } else {
        find_instance(insts.drop_last(), alias)
    }
}

/// The index of the last instance with the given alias.
pub fn instance_index(insts: &Vec<Instance>, alias: &[u8]) -> (r: Option<usize>)
    ensures
        match r {
            Some(i) => i < insts@.len() && find_instance(insts_view(insts@), alias@) == Some(insts@[i as int]@),
            None => find_instance(insts_view(insts@), alias@) is None,
        },
{
    let mut i = insts.len();
    assert(insts_view(insts@).subrange(0, i as int) =~= insts_view(insts@));
    while i > 0
        invariant
            i <= insts@.len(),
            find_instance(insts_view(insts@), alias@) == find_instance(insts_view(insts@).subrange(0, i as int), alias@),
        decreases i,
    {
        let ghost pre = insts_view(insts@).subrange(0, i as int);
        assert(pre.drop_last() =~= insts_view(insts@).subrange(0, i - 1));
        if bytes_order(insts[i - 1].alias.as_slice(), alias) == 0 {
            return Some(i - 1);
        }
        i = i - 1;
    }
    None
}

/// Follows the dotted path `rest` through instance fields, from the instance `cur`.
pub open spec fn walk(insts: Seq<SInstance>, cur: Seq<u8>, rest: Seq<u8>) -> Option<Seq<u8>>
    decreases rest.len(),
{
    match find_instance(insts, cur) {
        None => None,
        Some(inst) => match dot_index(rest, 0) {
            None => lookup(inst.fields, rest),
            Some(i) => {
                if 0 <= i < rest.len() {
                    match lookup(inst.fields, rest.subrange(0, i)) {
                        Some(v) => walk(insts, v, rest.subrange(i + 1, rest.len() as int)),
                        None => None,
                    }
                } else {
                    None
                }
            },
        },
    }
}

/// What a name stands for in a scope: its alias if it has one; else, for a
/// dotted name, the field reached by following the path from its first
/// segment (itself resolved through the aliases); else the name itself.
pub open spec fn resolve(aliases: Seq<(Seq<u8>, Seq<u8>)>, insts: Seq<SInstance>, name: Seq<u8>) -> Seq<u8> {
    match lookup(aliases, name) {
        Some(v) => v,
        None => match dot_index(name, 0) {
            None => name,
            Some(i) => {
                let head0 = name.subrange(0, i);
                let head = match lookup(aliases, head0) {
                    Some(v) => v,
                    None => head0,
                };
                match walk(insts, head, name.subrange(i + 1, name.len() as int)) {
                    Some(v) => v,
                    None => name,
                }
            },
        },
    }
}

pub fn walk_path(insts: &Vec<Instance>, cur: Vec<u8>, rest: &[u8]) -> (r: Option<Vec<u8>>)
    ensures
        match r {
            Some(v) => walk(insts_view(insts@), cur@, rest@) == Some(v@),
            None => walk(insts_view(insts@), cur@, rest@) is None,
        },
    decreases rest@.len(),
{
    let idx = match instance_index(insts, cur.as_slice()) {
        Some(i) => i,
        None => {
            return None;
        },
    };
    proof {
        lemma_dot_index(rest@, 0);
    }
    match find_dot(rest) {
        None => lookup_pair(&insts[idx].fields, rest),
        Some(i) => {
            let seg = sub_bytes(rest, 0, i);
            match lookup_pair(&insts[idx].fields, seg.as_slice()) {
                Some(v) => {
                    let _n = rest.len();
                    let more = sub_bytes(rest, i + 1, rest.len());
                    walk_path(insts, v, more.as_slice())
                },
                None => None,
            }
        },
    }
}

/// What a name stands for (see `resolve`).
pub fn resolve_name(aliases: &Pairs, insts: &Vec<Instance>, name: &[u8]) -> (r: Vec<u8>)
    ensures
        r@ == resolve(pairs_view(aliases@), insts_view(insts@), name@),
{
    match lookup_pair(aliases, name) {
        Some(v) => v,
        None => {
            proof {
                lemma_dot_index(name@, 0);
            }
            match find_dot(name) {
                None => copy_bytes(name),
                Some(i) => {
                    let head0 = sub_bytes(name, 0, i);
                    let head = match lookup_pair(aliases, head0.as_slice()) {
                        Some(v) => v,
                        None => head0,
                    };
                    let _n = name.len();
                    let rest = sub_bytes(name, i + 1, name.len());
                    match walk_path(insts, head, rest.as_slice()) {
                        Some(v) => v,
                        None => copy_bytes(name),
                    }
                },
            }
        },
    }
}


/// The last binding of a key wins: after binding `key` to `value`, looking
/// `key` up gives `value`, and any other key is looked up as before; nothing
/// is bound in an empty list.
pub proof fn lemma_lookup_last_binding_wins(
    pairs: Seq<(Seq<u8>, Seq<u8>)>,
    key: Seq<u8>,
    value: Seq<u8>,
    other: Seq<u8>,
)
    ensures
        lookup(pairs.push((key, value)), key) == Some(value),
        other != key ==> lookup(pairs.push((key, value)), other) == lookup(pairs, other),
        lookup(Seq::<(Seq<u8>, Seq<u8>)>::empty(), key) is None,
{
    assert(pairs.push((key, value)).drop_last() =~= pairs);
}

/// The last instance with an alias is the one found: after registering an
/// instance, its alias finds it, and any other alias is found as before.
pub proof fn lemma_find_instance_last_wins(insts: Seq<SInstance>, x: SInstance, other: Seq<u8>)
    ensures
        find_instance(insts.push(x), x.alias) == Some(x),
        other != x.alias ==> find_instance(insts.push(x), other) == find_instance(insts, other),
{
    assert(insts.push(x).drop_last() =~= insts);
}

/// A name with an alias stands for what the alias gives; a plain name (with
/// no `.`) and no alias stands for itself; a dotted name with no alias whose
/// first segment is an instance stands for the field it names.
pub proof fn lemma_resolve_aliases_first(
    aliases: Seq<(Seq<u8>, Seq<u8>)>,
    insts: Seq<SInstance>,
    name: Seq<u8>,
    inst: SInstance,
    field: Seq<u8>,
    target: Seq<u8>,
)
    ensures
        lookup(aliases, name) matches Some(v) ==> resolve(aliases, insts, name) == v,
        lookup(aliases, name) is None && (forall|i: int| 0 <= i < name.len() ==> name[i] != 46) ==> resolve(
            aliases,
            insts,
            name,
        ) == name,
        ({
            let full = dotted(inst.alias, field);
            &&& lookup(aliases, full) is None
            &&& lookup(aliases, inst.alias) is None
            &&& (forall|i: int| 0 <= i < inst.alias.len() ==> inst.alias[i] != 46)
            &&& (forall|i: int| 0 <= i < field.len() ==> field[i] != 46)
            &&& find_instance(insts, inst.alias) == Some(inst)
            &&& lookup(inst.fields, field) == Some(target)
        }) ==> resolve(aliases, insts, dotted(inst.alias, field)) == target,
{
    if lookup(aliases, name) is None && (forall|i: int| 0 <= i < name.len() ==> name[i] != 46) {
        lemma_dot_index(name, 0);
    }
    let full = dotted(inst.alias, field);
    let n = inst.alias.len() as int;
    if lookup(aliases, full) is None && (forall|i: int| 0 <= i < inst.alias.len() ==> inst.alias[i] != 46) && (
    forall|i: int| 0 <= i < field.len() ==> field[i] != 46) {
        lemma_dot_first(full, n);
        assert(full.subrange(0, n) =~= inst.alias);
        assert(full.subrange(n + 1, full.len() as int) =~= field);
        lemma_dot_first(field, field.len() as int);
    }
}

/// The first `.` of a name whose first `.` is at `n` (or which has none when
/// `n` is its length).
proof fn lemma_dot_first(s: Seq<u8>, n: int)
    requires
        0 <= n <= s.len(),
        forall|i: int| 0 <= i < n ==> s[i] != 46,
        n < s.len() ==> s[n] == 46,
    ensures
        dot_index(s, 0) == if n < s.len() {
            Some(n)
        } else {
            None
        },
{
    lemma_dot_from(s, 0, n);
}

proof fn lemma_dot_from(s: Seq<u8>, from: int, n: int)
    requires
        0 <= from <= n <= s.len(),
        forall|i: int| 0 <= i < n ==> s[i] != 46,
        n < s.len() ==> s[n] == 46,
    ensures
        dot_index(s, from) == if n < s.len() {
            Some(n)
        } else {
            None
        },
    decreases n - from,
{
    if from < n {
        lemma_dot_from(s, from + 1, n);
    }
}

} // verus!
