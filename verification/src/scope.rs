//! The scope chain: frames of name-to-value bindings with parent links.
//!
//! A frame is an entry list viewed as a map (later entries win); the chain is
//! viewed as a sequence of maps, root first, innermost last. Lookup walks
//! innermost to outermost; `set` binds in the innermost frame only;
//! `reassign` overwrites the nearest frame that defines the name.
use crate::builtins::{builtins_map, fill_with_builtins};
use crate::object::{dup_obj, Object, Val};
use vstd::prelude::*;

verus! {

/// The map a frame's entry list stands for: later entries win.
pub open spec fn frame_map(entries: Seq<(String, Object)>) -> Map<Seq<char>, Val>
    decreases entries.len(),
{
    if entries.len() == 0 {
        Map::empty()
    } else {
        frame_map(entries.drop_last()).insert(entries.last().0@, entries.last().1@)
    }
}

/// Innermost-to-outermost lookup over the chain's view.
pub open spec fn lookup_v(scopes: Seq<Map<Seq<char>, Val>>, name: Seq<char>) -> Option<Val>
    decreases scopes.len(),
{
    if scopes.len() == 0 {
        None
    } else if scopes.last().contains_key(name) {
        Some(scopes.last()[name])
    } else {
        lookup_v(scopes.drop_last(), name)
    }
}

/// Bind `name` in the innermost frame, inserting or overwriting.
pub open spec fn define_v(
    scopes: Seq<Map<Seq<char>, Val>>,
    name: Seq<char>,
    v: Val,
) -> Seq<Map<Seq<char>, Val>>
    recommends
        scopes.len() > 0,
{
    scopes.update(scopes.len() - 1, scopes.last().insert(name, v))
}

/// Overwrite `name` in the nearest frame that defines it; `None` when no
/// frame does.
pub open spec fn reassign_v(scopes: Seq<Map<Seq<char>, Val>>, name: Seq<char>, v: Val) -> Option<
    Seq<Map<Seq<char>, Val>>,
>
    decreases scopes.len(),
{
    if scopes.len() == 0 {
        None
    } else if scopes.last().contains_key(name) {
        Some(scopes.update(scopes.len() - 1, scopes.last().insert(name, v)))
    } else {
        match reassign_v(scopes.drop_last(), name, v) {
            Some(rest) => Some(rest.push(scopes.last())),
            None => None,
        }
    }
}

/// One frame of bindings and an optional parent frame.
#[derive(Debug, PartialEq)]
pub struct Scope {
    memvars: Vec<(String, Object)>,
    parent: Option<Box<Scope>>,
}

pub closed spec fn scope_view(s: Scope) -> Seq<Map<Seq<char>, Val>>
    decreases s,
{
    match s.parent {
        None => seq![frame_map(s.memvars@)],
        Some(p) => scope_view(*p).push(frame_map(s.memvars@)),
    }
}

impl View for Scope {
    type V = Seq<Map<Seq<char>, Val>>;

    closed spec fn view(&self) -> Seq<Map<Seq<char>, Val>> {
        scope_view(*self)
    }
}

/// A chain's view is its parent's view plus its own frame at the end.
proof fn lemma_scope_view_shape(s: Scope)
    ensures
        scope_view(s).len() >= 1,
        scope_view(s).last() == frame_map(s.memvars@),
        scope_view(s).drop_last() == (match s.parent {
            None => Seq::<Map<Seq<char>, Val>>::empty(),
            Some(p) => scope_view(*p),
        }),
{
    match s.parent {
        None => {
            assert(scope_view(s).drop_last() =~= Seq::<Map<Seq<char>, Val>>::empty());
        },
        Some(p) => {
            assert(scope_view(s).drop_last() =~= scope_view(*p));
        },
    }
}

/// Replacing only the innermost entry list updates only the last map.
proof fn lemma_scope_view_update(s1: Scope, s2: Scope)
    requires
        s1.parent == s2.parent,
    ensures
        scope_view(s2) == scope_view(s1).update(
            scope_view(s1).len() - 1,
            frame_map(s2.memvars@),
        ),
{
    match s1.parent {
        None => {
            assert(scope_view(s2) =~= scope_view(s1).update(
                scope_view(s1).len() - 1,
                frame_map(s2.memvars@),
            ));
        },
        Some(p) => {
            assert(scope_view(s2) =~= scope_view(s1).update(
                scope_view(s1).len() - 1,
                frame_map(s2.memvars@),
            ));
        },
    }
}

proof fn lemma_frame_absent(entries: Seq<(String, Object)>, name: Seq<char>)
    requires
        forall|k: int| 0 <= k < entries.len() ==> (#[trigger] entries[k]).0@ != name,
    ensures
        !frame_map(entries).contains_key(name),
    decreases entries.len(),
{
    if entries.len() > 0 {
        assert(forall|k: int|
            0 <= k < entries.drop_last().len() ==> (#[trigger] entries.drop_last()[k]).0@ != name);
        lemma_frame_absent(entries.drop_last(), name);
    }
}

proof fn lemma_frame_last(entries: Seq<(String, Object)>, idx: int, name: Seq<char>)
    requires
        0 <= idx < entries.len(),
        entries[idx].0@ == name,
        forall|k: int| idx < k < entries.len() ==> (#[trigger] entries[k]).0@ != name,
    ensures
        frame_map(entries).contains_key(name),
        frame_map(entries)[name] == entries[idx].1@,
    decreases entries.len(),
{
    if idx == entries.len() - 1 {
    } else {
        assert(forall|k: int|
            idx < k < entries.drop_last().len() ==> (#[trigger] entries.drop_last()[k]).0@
                != name);
        lemma_frame_last(entries.drop_last(), idx, name);
    }
}

proof fn lemma_frame_update(
    entries: Seq<(String, Object)>,
    idx: int,
    name: Seq<char>,
    p: (String, Object),
)
    requires
        0 <= idx < entries.len(),
        entries[idx].0@ == name,
        forall|k: int| idx < k < entries.len() ==> (#[trigger] entries[k]).0@ != name,
        p.0@ == name,
    ensures
        frame_map(entries.update(idx, p)) == frame_map(entries).insert(name, p.1@),
    decreases entries.len(),
{
    let u = entries.update(idx, p);
    if idx == entries.len() - 1 {
        assert(u.drop_last() =~= entries.drop_last());
        assert(u.last() == p);
        assert(frame_map(entries.drop_last()).insert(name, entries[idx].1@).insert(name, p.1@)
            =~= frame_map(entries.drop_last()).insert(name, p.1@));
    } else {
        assert(u.drop_last() =~= entries.drop_last().update(idx, p));
        assert(forall|k: int|
            idx < k < entries.drop_last().len() ==> (#[trigger] entries.drop_last()[k]).0@
                != name);
        lemma_frame_update(entries.drop_last(), idx, name, p);
        assert(u.last() == entries.last());
        assert(entries.last().0@ != name);
        assert(frame_map(entries.drop_last()).insert(name, p.1@).insert(
            entries.last().0@,
            entries.last().1@,
        ) =~= frame_map(entries.drop_last()).insert(entries.last().0@, entries.last().1@).insert(
            name,
            p.1@,
        ));
    }
}

proof fn lemma_frame_push(entries: Seq<(String, Object)>, p: (String, Object))
    ensures
        frame_map(entries.push(p)) == frame_map(entries).insert(p.0@, p.1@),
{
    assert(entries.push(p).drop_last() =~= entries);
}

/// Index of the last entry bound to `name`, if any.
fn frame_find(entries: &Vec<(String, Object)>, name: &String) -> (r: Option<usize>)
    ensures
        (match r {
            Some(idx) => idx < entries@.len() && entries@[idx as int].0@ == name@ && (forall|k: int|
                idx < k < entries@.len() ==> (#[trigger] entries@[k]).0@ != name@),
            None => forall|k: int|
                0 <= k < entries@.len() ==> (#[trigger] entries@[k]).0@ != name@,
        }),
{
    let mut k = entries.len();
    while k > 0
        invariant
            0 <= k <= entries@.len(),
            forall|m: int| k <= m < entries@.len() ==> (#[trigger] entries@[m]).0@ != name@,
        decreases k,
    {
        k = k - 1;
        if entries[k].0 == *name {
            return Some(k);
        }
    }
    None
}



/// A successful reassignment keeps the number of frames.
pub proof fn lemma_reassign_v_len(scopes: Seq<Map<Seq<char>, Val>>, name: Seq<char>, v: Val)
    ensures
        reassign_v(scopes, name, v) matches Some(s2) ==> s2.len() == scopes.len(),
    decreases scopes.len(),
{
    if scopes.len() > 0 && !scopes.last().contains_key(name) {
        lemma_reassign_v_len(scopes.drop_last(), name, v);
    }
}

/// Every chain has at least its own frame.
pub proof fn lemma_scope_at_least_one(s: &Scope)
    ensures
        s@.len() >= 1,
{
    lemma_scope_view_shape(*s);
}

/// Owned walk outward: overwrite `name` in the nearest frame defining it.
fn reassign_rec(s: Scope, name: &str, value: &Object) -> (r: (Scope, bool))
    ensures
        (match reassign_v(s@, name@, value@) {
            Some(s2) => r.1 == true && r.0@ == s2,
            None => r.1 == false && r.0@ == s@,
        }),
    decreases s,
{
    let ghost s0 = s;
    proof {
        lemma_scope_view_shape(s0);
    }
    let owned = name.to_owned();
    let Scope { mut memvars, parent } = s;
    match frame_find(&memvars, &owned) {
        Some(idx) => {
            let entry = (owned, dup_obj(value));
            proof {
                lemma_frame_last(memvars@, idx as int, name@);
                lemma_frame_update(memvars@, idx as int, name@, entry);
            }
            memvars.set(idx, entry);
            let out = Scope { memvars, parent };
            proof {
                lemma_scope_view_update(s0, out);
                assert(out@ =~= reassign_v(s0@, name@, value@).unwrap());
            }
            (out, true)
        },
        None => {
            proof {
                lemma_frame_absent(memvars@, name@);
            }
            match parent {
                Some(pbox) => {
                    let (pnew, r) = reassign_rec(*pbox, name, value);
                    let out = Scope { memvars, parent: Some(Box::new(pnew)) };
                    proof {
                        lemma_scope_view_shape(out);
                        if reassign_v(s0@.drop_last(), name@, value@) is Some {
                            assert(out@ =~= reassign_v(s0@, name@, value@).unwrap());
                        } else {
                            assert(out@ =~= s0@);
                        }
                    }
                    (out, r)
                },
                None => {
                    let out = Scope { memvars, parent: None };
                    proof {
                        assert(out@ =~= s0@);
                    }
                    (out, false)
                },
            }
        },
    }
}

impl Scope {
    /// The root frame, holding exactly the native-function table.
    pub fn new_root() -> (s: Scope)
        ensures
            s@ == seq![builtins_map()],
    {
        let mut m: Vec<(String, Object)> = Vec::new();
        fill_with_builtins(&mut m);
        let s = Scope { memvars: m, parent: None };
        proof {
            assert(frame_map(Seq::<(String, Object)>::empty()) == Map::<Seq<char>, Val>::empty());
            assert(s@ =~= seq![builtins_map()]);
        }
        s
    }

    /// A frame with no bindings and no parent.
    pub fn new_empty() -> (s: Scope)
        ensures
            s@ == seq![Map::<Seq<char>, Val>::empty()],
    {
        let s = Scope { memvars: Vec::new(), parent: None };
        proof {
            assert(s@ =~= seq![Map::<Seq<char>, Val>::empty()]);
        }
        s
    }

    /// A new empty frame with this chain as its parent.
    pub fn extend(self) -> (s: Scope)
        ensures
            s@ == self@.push(Map::<Seq<char>, Val>::empty()),
    {
        let s = Scope { memvars: Vec::new(), parent: Some(Box::new(self)) };
        proof {
            assert(s@ =~= self@.push(Map::<Seq<char>, Val>::empty()));
        }
        s
    }

    /// The parent chain; this frame is discarded. Only a non-root frame can
    /// be retrieved.
    pub fn retrieve(self) -> (s: Scope)
        requires
            self@.len() >= 2,
        ensures
            s@ == self@.drop_last(),
    {
        proof {
            lemma_scope_view_shape(self);
        }
        let Scope { memvars: _m, parent } = self;
        match parent {
            Some(p) => *p,
            None => vstd::pervasive::unreached(),
        }
    }

    /// Bind `name` to a copy of `value` in this (innermost) frame.
    pub fn set(&mut self, name: &str, value: &Object)
        ensures
            final(self)@ == define_v(old(self)@, name@, value@),
    {
        let owned = name.to_owned();
        let entry = (owned, dup_obj(value));
        let ghost s1 = *self;
        match frame_find(&self.memvars, &entry.0) {
            Some(idx) => {
                proof {
                    lemma_frame_update(self.memvars@, idx as int, name@, entry);
                }
                self.memvars.set(idx, entry);
            },
            None => {
                proof {
                    lemma_frame_push(self.memvars@, entry);
                    lemma_frame_absent(self.memvars@, name@);
                }
                self.memvars.push(entry);
            },
        }
        proof {
            lemma_scope_view_shape(s1);
            lemma_scope_view_update(s1, *self);
            assert(final(self)@ =~= define_v(old(self)@, name@, value@));
        }
    }

    /// The value of `name`, searching innermost to outermost.
    pub fn get(&self, name: &str) -> (r: Option<Object>)
        ensures
            (match r {
                Some(o) => lookup_v(self@, name@) == Some(o@),
                None => lookup_v(self@, name@) is None,
            }),
        decreases *self,
    {
        let owned = name.to_owned();
        proof {
            lemma_scope_view_shape(*self);
        }
        match frame_find(&self.memvars, &owned) {
            Some(idx) => {
                proof {
                    lemma_frame_last(self.memvars@, idx as int, name@);
                }
                Some(dup_obj(&self.memvars[idx].1))
            },
            None => {
                proof {
                    lemma_frame_absent(self.memvars@, name@);
                    assert(self@.len() >= 1);
                    assert(self@.last() == frame_map(self.memvars@));
                    assert(!self@.last().contains_key(name@));
                    assert(lookup_v(self@, name@) == lookup_v(self@.drop_last(), name@));
                }
                match &self.parent {
                    Some(p) => {
                        let r = p.get(name);
                        proof {
                            assert(self@.drop_last() == scope_view(**p));
                        }
                        r
                    },
                    None => {
                        proof {
                            assert(self@.drop_last() =~= Seq::<Map<Seq<char>, Val>>::empty());
                            assert(lookup_v(self@, name@) is None);
                        }
                        None
                    },
                }
            },
        }
    }

    /// Overwrite `name` with a copy of `value` in the nearest frame defining
    /// it; false when no frame does (the chain is then unchanged).
    pub fn reassign(&mut self, name: &str, value: &Object) -> (r: bool)
        ensures
            (match reassign_v(old(self)@, name@, value@) {
                Some(s2) => r == true && final(self)@ == s2,
                None => r == false && final(self)@ == old(self)@,
            }),
    {
        let mut tmp = Scope::new_empty();
        core::mem::swap(&mut tmp, self);
        let (s2, r) = reassign_rec(tmp, name, value);
        *self = s2;
        r
    }
}

} // verus!
