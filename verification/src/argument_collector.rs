//! Collects a command's arguments for easier validation and access:
//! positional arguments in order, and switches grouped by name with every
//! occurrence kept in declaration order.

use vstd::prelude::*;
use crate::assoc::{
    assoc_find, assoc_map, distinct_keys, lemma_assoc_absent, lemma_assoc_map, lemma_assoc_push,
    lemma_assoc_update,
};
use crate::ast::{AstArgument, AstSwitch, SpecArgument, SpecSwitch, view_arg, view_args,
    view_switch};

verus! {

/// The name a switch is attached by.
pub open spec fn sw_name(w: SpecSwitch) -> Seq<char> {
    match w {
        SpecSwitch::On(n) => n,
        SpecSwitch::Off(n) => n,
        SpecSwitch::Option(n, _) => n,
    }
}

/// The non-switch arguments, in order.
pub open spec fn positionals_of(s: Seq<SpecArgument>) -> Seq<SpecArgument>
    decreases s.len(),
{
    if s.len() == 0 {
        Seq::empty()
    } else {
        let rest = positionals_of(s.drop_last());
        if s.last() is Switch {
            rest
        } else {
            rest.push(s.last())
        }
    }
}

/// The switches named `n`, in order of occurrence.
pub open spec fn occurrences_of(s: Seq<SpecArgument>, n: Seq<char>) -> Seq<SpecSwitch>
    decreases s.len(),
{
    if s.len() == 0 {
        Seq::empty()
    } else {
        let rest = occurrences_of(s.drop_last(), n);
        match s.last() {
            SpecArgument::Switch(w) => if sw_name(w) == n {
                rest.push(w)
            } else {
                rest
            },
            _ => rest,
        }
    }
}

/// How many arguments are switches.
pub open spec fn switch_count(s: Seq<SpecArgument>) -> nat
    decreases s.len(),
{
    if s.len() == 0 {
        0
    } else {
        switch_count(s.drop_last()) + (if s.last() is Switch {
            1nat
        } else {
            0nat
        })
    }
}

/// Every argument is either a positional or a switch: the partition loses
/// nothing and invents nothing.
pub proof fn lemma_partition_count(s: Seq<SpecArgument>)
    ensures
        positionals_of(s).len() + switch_count(s) == s.len(),
    decreases s.len(),
{
    if s.len() > 0 {
        lemma_partition_count(s.drop_last());
    }
}

/// Models of a sequence of borrowed switches.
pub open spec fn sw_views(s: Seq<&AstSwitch>) -> Seq<SpecSwitch>
    decreases s.len(),
{
    if s.len() == 0 {
        Seq::empty()
    } else {
        sw_views(s.drop_last()).push(view_switch(*s.last()))
    }
}

/// Models of a sequence of borrowed arguments.
pub open spec fn arg_views(s: Seq<&AstArgument>) -> Seq<SpecArgument>
    decreases s.len(),
{
    if s.len() == 0 {
        Seq::empty()
    } else {
        arg_views(s.drop_last()).push(view_arg(*s.last()))
    }
}

/// The switch occurrences a collector's table holds, entry by entry.
pub open spec fn table_total(s: Seq<(String, Vec<&AstSwitch>)>) -> nat
    decreases s.len(),
{
    if s.len() == 0 {
        0
    } else {
        table_total(s.drop_last()) + s.last().1@.len()
    }
}

proof fn lemma_table_total_update(s: Seq<(String, Vec<&AstSwitch>)>, i: int, e: (
    String,
    Vec<&AstSwitch>,
))
    requires
        0 <= i < s.len(),
    ensures
        table_total(s.update(i, e)) == table_total(s) - s[i].1@.len() + e.1@.len(),
    decreases s.len(),
{
    let t = s.update(i, e);
    if i == s.len() - 1 {
        assert(t.drop_last() =~= s.drop_last());
        assert(t.last() == e);
    } else {
        lemma_table_total_update(s.drop_last(), i, e);
        assert(t.drop_last() =~= s.drop_last().update(i, e));
        assert(t.last() == s.last());
    }
}

/// The group names of a collector's table, in table order.
pub open spec fn keys_of(t: Seq<(String, Vec<&AstSwitch>)>) -> Seq<Seq<char>>
    decreases t.len(),
{
    if t.len() == 0 {
        Seq::empty()
    } else {
        keys_of(t.drop_last()).push(t.last().0@)
    }
}

/// The group names after collecting an argument sequence on top of the
/// names already present: unseen switch names are appended in order of
/// their first occurrence.
pub open spec fn merge_keys(ks: Seq<Seq<char>>, s: Seq<SpecArgument>) -> Seq<Seq<char>>
    decreases s.len(),
{
    if s.len() == 0 {
        ks
    } else {
        let pre = merge_keys(ks, s.drop_last());
        match s.last() {
            SpecArgument::Switch(w) => if pre.contains(sw_name(w)) {
                pre
            } else {
                pre.push(sw_name(w))
            },
            _ => pre,
        }
    }
}

/// The table's names, entry by entry.
proof fn lemma_keys_of(t: Seq<(String, Vec<&AstSwitch>)>)
    ensures
        keys_of(t).len() == t.len(),
        forall|i: int| 0 <= i < t.len() ==> keys_of(t)[i] == (#[trigger] t[i]).0@,
    decreases t.len(),
{
    if t.len() > 0 {
        lemma_keys_of(t.drop_last());
        assert forall|i: int| 0 <= i < t.len() implies keys_of(t)[i] == (#[trigger] t[i]).0@ by {
            if i < t.len() - 1 {
                assert(t.drop_last()[i] == t[i]);
            } else {
                assert(t[i] == t.last());
            }
        }
    }
}

/// Each group of a well-formed collector holds exactly the occurrences
/// collected under its own name.
pub proof fn lemma_groups_hold_occurrences<'a>(c: &ArgumentCollector<'a>)
    requires
        c.wf(),
    ensures
        forall|k: int| 0 <= k < c.switches@.len() ==> sw_views((#[trigger] c.switches@[k]).1@)
            == c.occ(c.switches@[k].0@),
{
    lemma_assoc_map(c.switches@);
    assert forall|k: int| 0 <= k < c.switches@.len() implies sw_views(
        (#[trigger] c.switches@[k]).1@,
    ) == c.occ(c.switches@[k].0@) by {
        assert(c.switches@[k].0@ == c.switches@[k].0@);
        assert(assoc_map(c.switches@).contains_key(c.switches@[k].0@));
        assert(assoc_map(c.switches@)[c.switches@[k].0@] == c.switches@[k].1);
    }
}

/// Structure collecting arguments for easier validation and access.
pub struct ArgumentCollector<'a> {
    /// Positional arguments, in order.
    pub positionals: Vec<&'a AstArgument>,
    /// Switch arguments, grouped by name, occurrences in order.
    pub switches: Vec<(String, Vec<&'a AstSwitch>)>,
}

impl<'a> ArgumentCollector<'a> {
    /// The names hold one group each.
    pub open spec fn wf(&self) -> bool {
        distinct_keys(self.switches@)
    }

    /// The occurrences collected under a name.
    pub open spec fn occ(&self, n: Seq<char>) -> Seq<SpecSwitch> {
        if assoc_map(self.switches@).contains_key(n) {
            sw_views(assoc_map(self.switches@)[n]@)
        } else {
            Seq::empty()
        }
    }

    /// How many switch occurrences the collector holds in all, every group
    /// counted with its length.
    pub open spec fn total_switches(&self) -> nat {
        table_total(self.switches@)
    }

    /// Creates a new argument collector.
    pub fn new() -> (r: ArgumentCollector<'a>)
        ensures
            r.wf(),
            r.positionals@.len() == 0,
            r.switches@.len() == 0,
            arg_views(r.positionals@) == Seq::<SpecArgument>::empty(),
            forall|n: Seq<char>| r.occ(n) == Seq::<SpecSwitch>::empty(),
            r.total_switches() == 0,
    {
        let r = ArgumentCollector { positionals: Vec::new(), switches: Vec::new() };
        proof {
            assert(arg_views(r.positionals@) =~= Seq::<SpecArgument>::empty());
        }
        r
    }

    /// Collects the given arguments: non-switches are appended to the
    /// positionals in order, and each switch is appended to its name's
    /// group, groups appearing in first-occurrence order.
    pub fn collect(&mut self, args: &'a Vec<AstArgument>)
        requires
            old(self).wf(),
        ensures
            final(self).wf(),
            arg_views(final(self).positionals@) == arg_views(old(self).positionals@)
                + positionals_of(view_args(args@)),
            forall|n: Seq<char>| final(self).occ(n) == old(self).occ(n) + occurrences_of(
                view_args(args@),
                n,
            ),
            final(self).total_switches() == old(self).total_switches() + switch_count(
                view_args(args@),
            ),
            final(self).positionals@.len() == old(self).positionals@.len() + positionals_of(
                view_args(args@),
            ).len(),
            keys_of(final(self).switches@) == merge_keys(
                keys_of(old(self).switches@),
                view_args(args@),
            ),
    {
        let n = args.len();
        let mut i: usize = 0;
        proof {
            crate::ast::lemma_view_args(args@);
            assert(view_args(args@).take(0) =~= Seq::<SpecArgument>::empty());
            assert(merge_keys(keys_of(old(self).switches@), view_args(args@).take(0))
                == keys_of(old(self).switches@));
            assert(arg_views(self.positionals@) + Seq::<SpecArgument>::empty() =~= arg_views(
                self.positionals@,
            ));
            assert(forall|nm: Seq<char>| #![all_triggers] self.occ(nm) + Seq::<SpecSwitch>::empty()
                =~= self.occ(nm));
        }
        while i < n
            invariant
                i <= n == args@.len(),
                self.wf(),
                view_args(args@).len() == args@.len(),
                forall|x: int| 0 <= x < args@.len() ==> view_args(args@)[x] == view_arg(
                    #[trigger] args@[x],
                ),
                arg_views(self.positionals@) == arg_views(old(self).positionals@)
                    + positionals_of(view_args(args@).take(i as int)),
                forall|nm: Seq<char>| #[trigger] self.occ(nm) == old(self).occ(nm)
                    + occurrences_of(view_args(args@).take(i as int), nm),
                self.total_switches() == old(self).total_switches() + switch_count(
                    view_args(args@).take(i as int),
                ),
                self.positionals@.len() == old(self).positionals@.len() + positionals_of(
                    view_args(args@).take(i as int),
                ).len(),
                keys_of(self.switches@) == merge_keys(
                    keys_of(old(self).switches@),
                    view_args(args@).take(i as int),
                ),
            decreases n - i,
        {
            let ghost pre = *self;
            let ghost seen = view_args(args@).take(i as int);
            let ghost cur = view_args(args@)[i as int];
            proof {
                assert(view_args(args@).take(i as int + 1) =~= seen.push(cur));
                assert(seen.push(cur).drop_last() =~= seen);
                assert(seen.push(cur).last() == cur);
            }
            let a = &args[i];
            match a {
                AstArgument::Switch(w) => {
                    let nm: &String = match w {
                        AstSwitch::On(x) => x,
                        AstSwitch::Off(x) => x,
                        AstSwitch::Option(x, _) => x,
                    };
                    proof {
                        assert(cur == SpecArgument::Switch(view_switch(*w)));
                        assert(sw_name(view_switch(*w)) == nm@);
                    }
                    match assoc_find(&self.switches, nm) {
                        Some(k) => {
                            proof {
                                lemma_assoc_map(pre.switches@);
                                lemma_keys_of(pre.switches@);
                                assert(keys_of(pre.switches@).contains(nm@)) by {
                                    assert(keys_of(pre.switches@)[k as int] == nm@);
                                }
                            }
                            let ghost old_entry = self.switches@[k as int];
                            let entry = &mut self.switches[k];
                            let ghost old_group = entry.1@;
                            entry.1.push(w);
                            proof {
                                let e = self.switches@[k as int];
                                assert(e.0 == old_entry.0);
                                assert(e.1@ =~= old_group.push(w));
                                assert(self.switches@ =~= pre.switches@.update(k as int, e));
                                lemma_assoc_update(pre.switches@, k as int, e);
                                lemma_table_total_update(pre.switches@, k as int, e);
                                assert(e.1@.drop_last() =~= old_group);
                                assert(sw_views(e.1@) == sw_views(old_group).push(
                                    view_switch(*w),
                                ));
                                assert(pre.occ(nm@) == sw_views(old_group));
                                assert forall|q: Seq<char>| #[trigger] self.occ(q) == old(
                                    self,
                                ).occ(q) + occurrences_of(seen.push(cur), q) by {
                                    if q == nm@ {
                                        assert(seen.push(cur).drop_last() =~= seen);
                                        assert(occurrences_of(seen.push(cur), q)
                                            == occurrences_of(seen, q).push(view_switch(*w)));
                                        assert(pre.occ(q) == old(self).occ(q) + occurrences_of(
                                            seen,
                                            q,
                                        ));
                                        assert(self.occ(q) =~= pre.occ(q).push(view_switch(*w)));
                                        assert((old(self).occ(q) + occurrences_of(seen, q)).push(
                                            view_switch(*w),
                                        ) =~= old(self).occ(q) + occurrences_of(seen, q).push(
                                            view_switch(*w),
                                        ));
                                    } else {
                                        assert(self.occ(q) == pre.occ(q));
                                        assert(occurrences_of(seen.push(cur), q) == occurrences_of(
                                            seen,
                                            q,
                                        ));
                                    }
                                }
                                assert(positionals_of(seen.push(cur)) == positionals_of(seen));
                                lemma_keys_of(self.switches@);
                                assert forall|x: int| 0 <= x < self.switches@.len() implies
                                    keys_of(self.switches@)[x] == keys_of(pre.switches@)[x] by {
                                    if x != k {
                                        assert(self.switches@[x] == pre.switches@[x]);
                                    } else {
                                        assert(self.switches@[x] == e);
                                    }
                                }
                                assert(keys_of(self.switches@) =~= keys_of(pre.switches@));
                                assert(merge_keys(
                                    keys_of(old(self).switches@),
                                    seen.push(cur),
                                ) == keys_of(pre.switches@));
                            }
                        },
                        None => {
                            proof {
                                lemma_assoc_absent(self.switches@, nm@);
                                lemma_keys_of(pre.switches@);
                                assert(!keys_of(pre.switches@).contains(nm@)) by {
                                    if keys_of(pre.switches@).contains(nm@) {
                                        let j = choose|j: int|
                                            0 <= j < keys_of(pre.switches@).len()
                                                && keys_of(pre.switches@)[j] == nm@;
                                        assert(pre.switches@[j].0@ == nm@);
                                    }
                                }
                            }
                            let mut group: Vec<&AstSwitch> = Vec::new();
                            group.push(w);
                            proof {
                                assert(group@ =~= seq![w]);
                            }
                            let e = (nm.clone(), group);
                            let ghost ev = e;
                            proof {
                                lemma_assoc_push(pre.switches@, ev);
                            }
                            self.switches.push(e);
                            proof {
                                assert(self.switches@ =~= pre.switches@.push(ev));
                                assert(self.switches@.drop_last() =~= pre.switches@);
                                assert(self.switches@.last() == ev);
                                assert(self.total_switches() == pre.total_switches() + 1);
                                let g = ev.1@;
                                assert(g =~= seq![w]);
                                assert(g.len() == 1);
                                assert(g.drop_last() =~= Seq::<&AstSwitch>::empty());
                                assert(g.last() == w);
                                assert(sw_views(g) == sw_views(g.drop_last()).push(
                                    view_switch(*g.last()),
                                ));
                                assert(sw_views(Seq::<&AstSwitch>::empty())
                                    == Seq::<SpecSwitch>::empty());
                                assert(sw_views(g) =~= seq![view_switch(*w)]);
                                assert(assoc_map(self.switches@) == assoc_map(
                                    pre.switches@,
                                ).insert(nm@, ev.1));
                                assert forall|q: Seq<char>| #[trigger] self.occ(q) == old(
                                    self,
                                ).occ(q) + occurrences_of(seen.push(cur), q) by {
                                    if q == nm@ {
                                        assert(seen.push(cur).drop_last() =~= seen);
                                        assert(self.occ(q) =~= seq![view_switch(*w)]);
                                        assert(pre.occ(q) == old(self).occ(q) + occurrences_of(
                                            seen,
                                            q,
                                        ));
                                        assert(pre.occ(q) =~= Seq::<SpecSwitch>::empty());
                                        assert(occurrences_of(seen.push(cur), q)
                                            == occurrences_of(seen, q).push(view_switch(*w)));
                                        assert(occurrences_of(seen, q) =~= Seq::<
                                            SpecSwitch,
                                        >::empty());
                                        assert(old(self).occ(q) + occurrences_of(seen.push(cur), q)
                                            =~= seq![view_switch(*w)]);
                                    } else {
                                        assert(self.occ(q) == pre.occ(q));
                                        assert(occurrences_of(seen.push(cur), q) == occurrences_of(
                                            seen,
                                            q,
                                        ));
                                    }
                                }
                                assert(positionals_of(seen.push(cur)) == positionals_of(seen));
                                assert(self.switches@.drop_last() =~= pre.switches@);
                                assert(keys_of(self.switches@) == keys_of(pre.switches@).push(
                                    nm@,
                                ));
                                assert(merge_keys(
                                    keys_of(old(self).switches@),
                                    seen.push(cur),
                                ) == keys_of(pre.switches@).push(nm@));
                            }
                        },
                    }
                },
                _ => {
                    self.positionals.push(a);
                    proof {
                        assert(self.positionals@.drop_last() =~= pre.positionals@);
                        assert(arg_views(self.positionals@) == arg_views(pre.positionals@).push(
                            view_arg(*a),
                        ));
                        assert(!(cur is Switch));
                        assert(positionals_of(seen.push(cur)) == positionals_of(seen).push(cur));
                        assert(arg_views(pre.positionals@).push(cur) =~= arg_views(
                            old(self).positionals@,
                        ) + positionals_of(seen).push(cur));
                        assert(switch_count(seen.push(cur)) == switch_count(seen));
                        assert(merge_keys(keys_of(old(self).switches@), seen.push(cur))
                            == merge_keys(keys_of(old(self).switches@), seen));
                        assert forall|q: Seq<char>| #[trigger] self.occ(q) == old(self).occ(q)
                            + occurrences_of(seen.push(cur), q) by {
                            assert(self.occ(q) == pre.occ(q));
                            assert(occurrences_of(seen.push(cur), q) == occurrences_of(seen, q));
                        }
                    }
                },
            }
            i = i + 1;
        }
        proof {
            assert(view_args(args@).take(n as int) =~= view_args(args@));
        }
    }
}

} // verus!
