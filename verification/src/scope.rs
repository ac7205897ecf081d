//! Lexically nested variable scopes, kept as an arena of frames addressed
//! by index; each frame holds an optional parent index, so no frame can
//! borrow from another.

use vstd::prelude::*;
use crate::assoc::{
    assoc_find, assoc_map, distinct_keys, lemma_assoc_absent, lemma_assoc_map, lemma_assoc_push,
    lemma_assoc_update, lemma_assoc_update_any,
};
use crate::variable::{SpecVariable, Variable, view_var};

verus! {

/// One frame of the scope arena.
struct ScopeFrame {
    parent: Option<usize>,
    vars: Vec<(String, Variable)>,
}

/// Model of one frame: its parent and its bindings.
pub struct SpecFrame {
    /// Index of the enclosing frame, if any.
    pub parent: Option<usize>,
    /// The bindings declared in this frame itself.
    pub vars: Map<Seq<char>, Variable>,
}

/// Script scopes: an arena of frames, where frame `0` is the root.
pub struct Scope {
    frames: Vec<ScopeFrame>,
}

/// Model of a frame.
spec fn view_frame(f: ScopeFrame) -> SpecFrame {
    SpecFrame { parent: f.parent, vars: assoc_map(f.vars@) }
}

/// Model of the frame arena.
spec fn view_frames(s: Seq<ScopeFrame>) -> Seq<SpecFrame>
    decreases s.len(),
{
    if s.len() == 0 {
        Seq::empty()
    } else {
        view_frames(s.drop_last()).push(view_frame(s.last()))
    }
}

proof fn lemma_view_frames(s: Seq<ScopeFrame>)
    ensures
        view_frames(s).len() == s.len(),
        forall|i: int| 0 <= i < s.len() ==> view_frames(s)[i] == view_frame(#[trigger] s[i]),
    decreases s.len(),
{
    if s.len() > 0 {
        lemma_view_frames(s.drop_last());
        assert forall|i: int| 0 <= i < s.len() implies view_frames(s)[i] == view_frame(s[i]) by {
            if i < s.len() - 1 {
                assert(s.drop_last()[i] == s[i]);
            } else {
                assert(s[i] == s.last());
            }
        }
    }
}

/// Looks a name up from frame `s`, walking parent frames outward and
/// stopping at the first frame that binds it.
pub open spec fn lookup(frames: Seq<SpecFrame>, s: int, name: Seq<char>) -> Option<SpecVariable>
    decreases s when 0 <= s < frames.len() && wf_frames(frames)
{
    if 0 <= s < frames.len() {
        if frames[s].vars.contains_key(name) {
            Some(view_var(frames[s].vars[name]))
        } else {
            match frames[s].parent {
                Some(p) => if p < s {
                    lookup(frames, p as int, name)
                } else {
                    None
                },
                None => None,
            }
        }
    } else {
        None
    }
}

/// Every frame's parent comes before it in the arena.
pub open spec fn wf_frames(frames: Seq<SpecFrame>) -> bool {
    forall|i: int| 0 <= i < frames.len() ==> match (#[trigger] frames[i]).parent {
        Some(p) => p < i,
        None => true,
    }
}

proof fn lemma_view_frames_univ()
    ensures
        forall|s: Seq<ScopeFrame>| #[trigger] view_frames(s).len() == s.len(),
        forall|s: Seq<ScopeFrame>, i: int| 0 <= i < s.len() ==> #[trigger] view_frames(s)[i]
            == view_frame(s[i]),
{
    assert forall|s: Seq<ScopeFrame>| #[trigger] view_frames(s).len() == s.len() by {
        lemma_view_frames(s);
    }
    assert forall|s: Seq<ScopeFrame>, i: int| 0 <= i < s.len() implies #[trigger] view_frames(s)[i]
        == view_frame(s[i]) by {
        lemma_view_frames(s);
    }
}

/// What replacing one binding's value in one frame does to the arena's
/// model, for every arena that relates to the old one that way.
proof fn lemma_frames_update_view(olds: Seq<ScopeFrame>, f: int, k: int)
    requires
        0 <= f < olds.len(),
        0 <= k < olds[f].vars@.len(),
        forall|i: int| 0 <= i < olds.len() ==> distinct_keys(#[trigger] olds[i].vars@),
        wf_frames(view_frames(olds)),
    ensures
        forall|news: Seq<ScopeFrame>|
            {
                &&& news.len() == olds.len()
                &&& (#[trigger] news[f]).parent == olds[f].parent
                &&& news[f].vars@ == olds[f].vars@.update(
                    k,
                    (olds[f].vars@[k].0, news[f].vars@[k].1),
                )
                &&& forall|j: int| 0 <= j < olds.len() && j != f ==> news[j] == olds[j]
            } ==> {
                &&& view_frames(news).len() == olds.len()
                &&& view_frames(news)[f] == (SpecFrame {
                    parent: view_frames(olds)[f].parent,
                    vars: view_frames(olds)[f].vars.insert(
                        olds[f].vars@[k].0@,
                        news[f].vars@[k].1,
                    ),
                })
                &&& forall|j: int| 0 <= j < olds.len() && j != f ==> view_frames(news)[j]
                    == view_frames(olds)[j]
                &&& wf_frames(view_frames(news))
                &&& forall|i: int| 0 <= i < news.len() ==> distinct_keys(#[trigger] news[i].vars@)
            },
{
    lemma_view_frames(olds);
    assert forall|news: Seq<ScopeFrame>|
        {
            &&& news.len() == olds.len()
            &&& (#[trigger] news[f]).parent == olds[f].parent
            &&& news[f].vars@ == olds[f].vars@.update(
                k,
                (olds[f].vars@[k].0, news[f].vars@[k].1),
            )
            &&& forall|j: int| 0 <= j < olds.len() && j != f ==> news[j] == olds[j]
        } implies {
            &&& view_frames(news).len() == olds.len()
            &&& view_frames(news)[f] == (SpecFrame {
                parent: view_frames(olds)[f].parent,
                vars: view_frames(olds)[f].vars.insert(olds[f].vars@[k].0@, news[f].vars@[k].1),
            })
            &&& forall|j: int| 0 <= j < olds.len() && j != f ==> view_frames(news)[j]
                == view_frames(olds)[j]
            &&& wf_frames(view_frames(news))
            &&& forall|i: int| 0 <= i < news.len() ==> distinct_keys(#[trigger] news[i].vars@)
        } by {
        lemma_view_frames(news);
        let v = news[f].vars@[k].1;
        assert(distinct_keys(olds[f].vars@));
        lemma_assoc_update(olds[f].vars@, k, (olds[f].vars@[k].0, v));
        assert(news[f].vars@[k] == (olds[f].vars@[k].0, v)) by {
            assert(news[f].vars@ == olds[f].vars@.update(k, (olds[f].vars@[k].0, v)));
        }
        assert(view_frames(olds)[f] == view_frame(olds[f]));
        assert(assoc_map(news[f].vars@) == assoc_map(olds[f].vars@).insert(
            olds[f].vars@[k].0@,
            v,
        ));
        assert(view_frame(news[f]) == SpecFrame {
            parent: view_frames(olds)[f].parent,
            vars: view_frames(olds)[f].vars.insert(olds[f].vars@[k].0@, v),
        });
        assert forall|j: int| 0 <= j < olds.len() && j != f implies view_frames(news)[j]
            == view_frames(olds)[j] by {
            assert(news[j] == olds[j]);
        }
        assert forall|i: int| 0 <= i < news.len() implies distinct_keys(
            #[trigger] news[i].vars@,
        ) by {
            if i != f {
                assert(news[i] == olds[i]);
            }
        }
        assert(wf_frames(view_frames(news))) by {
            assert forall|i: int| 0 <= i < view_frames(news).len() implies match (
            #[trigger] view_frames(news)[i]).parent {
                Some(p) => p < i,
                None => true,
            } by {
                if i != f {
                    assert(news[i] == olds[i]);
                }
                assert(view_frames(news)[i].parent == view_frames(olds)[i].parent);
            }
        }
    }
}

/// A variable declared in an enclosing scope is visible from a child scope
/// whenever the child itself declares no binding of the same name: the
/// lookup from the child is then exactly the lookup from its parent.
pub proof fn lemma_parent_visible(frames: Seq<SpecFrame>, child: int, parent: usize, name: Seq<char>)
    requires
        wf_frames(frames),
        0 <= child < frames.len(),
        frames[child].parent == Some(parent),
        !frames[child].vars.contains_key(name),
    ensures
        lookup(frames, child, name) == lookup(frames, parent as int, name),
{
}

/// A binding declared in a scope itself shadows any binding of the same
/// name in enclosing scopes.
pub proof fn lemma_shadowing(frames: Seq<SpecFrame>, child: int, name: Seq<char>)
    requires
        wf_frames(frames),
        0 <= child < frames.len(),
        frames[child].vars.contains_key(name),
    ensures
        lookup(frames, child, name) == Some(view_var(frames[child].vars[name])),
{
}

impl Scope {
    /// The model of this scope arena.
    pub closed spec fn view_scope(&self) -> Seq<SpecFrame> {
        view_frames(self.frames@)
    }

    /// The arena is well formed: it has a root, parents come before their
    /// children, and each frame's bindings are stored consistently.
    pub closed spec fn wf(&self) -> bool {
        &&& self.frames@.len() > 0
        &&& wf_frames(self.view_scope())
        &&& forall|i: int| 0 <= i < self.frames@.len() ==> distinct_keys(
            #[trigger] self.frames@[i].vars@,
        )
    }

    /// Creates a new scope arena holding only the root scope, frame `0`.
    pub fn new() -> (r: Scope)
        ensures
            r.wf(),
            r.view_scope().len() == 1,
            r.view_scope()[0] == (SpecFrame {
                parent: None::<usize>,
                vars: Map::<Seq<char>, Variable>::empty(),
            }),
    {
        let frames = vec![ScopeFrame { parent: None, vars: Vec::new() }];
        proof {
            lemma_view_frames(frames@);
            assert(assoc_map(frames@[0].vars@) =~= Map::<Seq<char>, Variable>::empty());
        }
        Scope { frames }
    }

    /// Creates a new scope extending the scope at `parent`, and returns its
    /// index.
    pub fn extends(&mut self, parent: usize) -> (child: usize)
        requires
            old(self).wf(),
            parent < old(self).view_scope().len(),
        ensures
            final(self).wf(),
            child == old(self).view_scope().len(),
            final(self).view_scope() == old(self).view_scope().push(
                SpecFrame { parent: Some(parent), vars: Map::<Seq<char>, Variable>::empty() },
            ),
    {
        let child = self.frames.len();
        self.frames.push(ScopeFrame { parent: Some(parent), vars: Vec::new() });
        proof {
            lemma_view_frames(old(self).frames@);
            lemma_view_frames(self.frames@);
            assert(self.frames@.drop_last() =~= old(self).frames@);
            assert(assoc_map(self.frames@.last().vars@) =~= Map::<Seq<char>, Variable>::empty());
            assert(self.view_scope() =~= old(self).view_scope().push(
                SpecFrame { parent: Some(parent), vars: Map::<Seq<char>, Variable>::empty() },
            ));
            assert forall|i: int| 0 <= i < self.frames@.len() implies distinct_keys(
                #[trigger] self.frames@[i].vars@,
            ) by {
                if i < self.frames@.len() - 1 {
                    assert(self.frames@[i] == old(self).frames@[i]);
                }
            }
        }
        child
    }

    /// Gets the given variable, looking outward through parent scopes, as
    /// seen from the scope at index `scope`.
    pub fn get_variable(&self, scope: usize, name: &String) -> (r: Option<&Variable>)
        requires
            self.wf(),
            scope < self.view_scope().len(),
        ensures
            match r {
                Some(v) => lookup(self.view_scope(), scope as int, name@) == Some(view_var(*v)),
                None => lookup(self.view_scope(), scope as int, name@) is None,
            },
    {
        proof {
            lemma_view_frames(self.frames@);
        }
        let mut s: usize = scope;
        loop
            invariant
                self.wf(),
                s < self.view_scope().len(),
                self.view_scope() == view_frames(self.frames@),
                view_frames(self.frames@).len() == self.frames@.len(),
                forall|i: int| 0 <= i < self.frames@.len() ==> view_frames(self.frames@)[i]
                    == view_frame(#[trigger] self.frames@[i]),
                lookup(self.view_scope(), scope as int, name@) == lookup(
                    self.view_scope(),
                    s as int,
                    name@,
                ),
            decreases s,
        {
            let frame = &self.frames[s];
            proof {
                lemma_assoc_map(frame.vars@);
            }
            match assoc_find(&frame.vars, name) {
                Some(i) => {
                    return Some(&frame.vars[i].1);
                },
                None => {
                    proof {
                        lemma_assoc_absent(frame.vars@, name@);
                    }
                    match frame.parent {
                        Some(p) => {
                            s = p;
                        },
                        None => {
                            return None;
                        },
                    }
                },
            }
        }
    }

    /// Finds the frame and the entry where `name` resolves, walking outward.
    fn resolve(&self, scope: usize, name: &String) -> (r: Option<(usize, usize)>)
        requires
            self.wf(),
            scope < self.view_scope().len(),
        ensures
            match r {
                Some(fk) => {
                    &&& fk.0 < self.frames@.len()
                    &&& fk.1 < self.frames@[fk.0 as int].vars@.len()
                    &&& self.frames@[fk.0 as int].vars@[fk.1 as int].0@ == name@
                    &&& lookup(self.view_scope(), scope as int, name@) == Some(
                        view_var(self.frames@[fk.0 as int].vars@[fk.1 as int].1),
                    )
                },
                None => lookup(self.view_scope(), scope as int, name@) is None,
            },
    {
        proof {
            lemma_view_frames(self.frames@);
        }
        let mut s: usize = scope;
        loop
            invariant
                self.wf(),
                s < self.view_scope().len(),
                self.view_scope() == view_frames(self.frames@),
                view_frames(self.frames@).len() == self.frames@.len(),
                forall|i: int| 0 <= i < self.frames@.len() ==> view_frames(self.frames@)[i]
                    == view_frame(#[trigger] self.frames@[i]),
                lookup(self.view_scope(), scope as int, name@) == lookup(
                    self.view_scope(),
                    s as int,
                    name@,
                ),
            decreases s,
        {
            let frame = &self.frames[s];
            proof {
                lemma_assoc_map(frame.vars@);
            }
            match assoc_find(&frame.vars, name) {
                Some(i) => {
                    return Some((s, i));
                },
                None => {
                    proof {
                        lemma_assoc_absent(frame.vars@, name@);
                    }
                    match frame.parent {
                        Some(p) => {
                            s = p;
                        },
                        None => {
                            return None;
                        },
                    }
                },
            }
        }
    }

    /// Gets the given variable for mutation, looking outward through parent
    /// scopes: the returned binding lives in the frame that holds it, and
    /// only that frame changes.
    pub fn get_variable_mut(&mut self, scope: usize, name: &String) -> (r: Option<&mut Variable>)
        requires
            old(self).wf(),
            scope < old(self).view_scope().len(),
        ensures
            match r {
                Some(v) => {
                    &&& lookup(old(self).view_scope(), scope as int, name@) == Some(view_var(*v))
                    &&& final(self).wf()
                    &&& final(self).view_scope().len() == old(self).view_scope().len()
                    &&& exists|f: int|
                        0 <= f < old(self).view_scope().len() && (#[trigger] final(self).view_scope()[f]) == (SpecFrame {
                            parent: old(self).view_scope()[f].parent,
                            vars: old(self).view_scope()[f].vars.insert(name@, *final(v)),
                        }) && (forall|j: int|
                            0 <= j < old(self).view_scope().len() && j != f
                                ==> final(self).view_scope()[j] == old(self).view_scope()[j])
                },
                None => {
                    &&& lookup(old(self).view_scope(), scope as int, name@) is None
                    &&& *final(self) == *old(self)
                },
            },
    {
        proof {
            lemma_view_frames(self.frames@);
            lemma_view_frames_univ();
        }
        match self.resolve(scope, name) {
            Some((f, k)) => {
                proof {
                    lemma_frames_update_view(self.frames@, f as int, k as int);
                }
                let frame = &mut self.frames[f];
                let entry = &mut frame.vars[k];
                Some(&mut entry.1)
            },
            None => None,
        }
    }

    /// Declares or replaces the given variable in the scope at index
    /// `scope` itself; enclosing scopes are not touched.
    pub fn set_variable(&mut self, scope: usize, name: String, value: Variable)
        requires
            old(self).wf(),
            scope < old(self).view_scope().len(),
        ensures
            final(self).wf(),
            final(self).view_scope().len() == old(self).view_scope().len(),
            final(self).view_scope()[scope as int] == (SpecFrame {
                parent: old(self).view_scope()[scope as int].parent,
                vars: old(self).view_scope()[scope as int].vars.insert(name@, value),
            }),
            forall|i: int| 0 <= i < old(self).view_scope().len() && i != scope
                ==> final(self).view_scope()[i] == old(self).view_scope()[i],
    {
        proof {
            lemma_view_frames(self.frames@);
        }
        let ghost old_frames = self.frames@;
        let frame = &mut self.frames[scope];
        let ghost old_frame = *frame;
        match assoc_find(&frame.vars, &name) {
            Some(i) => {
                proof {
                    lemma_assoc_update(old_frame.vars@, i as int, (name, value));
                }
                frame.vars[i] = (name, value);
            },
            None => {
                proof {
                    lemma_assoc_absent(old_frame.vars@, name@);
                    lemma_assoc_push(old_frame.vars@, (name, value));
                }
                frame.vars.push((name, value));
            },
        }
        proof {
            lemma_view_frames(old_frames);
            lemma_view_frames(self.frames@);
            assert(self.frames@.len() == old_frames.len());
            assert(forall|i: int| 0 <= i < old_frames.len() && i != scope ==> self.frames@[i]
                == old_frames[i]);
            assert(view_frame(self.frames@[scope as int]) == SpecFrame {
                parent: old(self).view_scope()[scope as int].parent,
                vars: old(self).view_scope()[scope as int].vars.insert(name@, value),
            });
            assert forall|i: int| 0 <= i < old(self).view_scope().len() && i != scope implies
                self.view_scope()[i] == old(self).view_scope()[i] by {
                assert(self.frames@[i] == old_frames[i]);
            }
            assert forall|i: int| 0 <= i < self.frames@.len() implies distinct_keys(
                #[trigger] self.frames@[i].vars@,
            ) by {
                if i != scope {
                    assert(self.frames@[i] == old_frames[i]);
                }
            }
            assert(wf_frames(self.view_scope())) by {
                assert forall|i: int| 0 <= i < self.view_scope().len() implies match (
                #[trigger] self.view_scope()[i]).parent {
                    Some(p) => p < i,
                    None => true,
                } by {
                    assert(self.view_scope()[i].parent == old(self).view_scope()[i].parent);
                }
            }
        }
    }
}

} // verus!
