//! Finding strings that are in only one of the default & a foreign locale

use vstd::prelude::*;

use crate::android_string::AndroidString;
use crate::names::name_order;
use crate::names::Named;
use crate::ops::sort::{
    compare_android_strings, has_distinct_names, has_name, lemma_sort_contains, lemma_sort_distinct_is_strict, lemma_sort_has_name,
    lemma_sort_is_permutation, sort_android_strings_by_name, sort_by_name,
};
use crate::util::two_pointer_traversal::{
    extra1_step, extra2_step, lemma_steps_in_range, lemma_walk_by_name, steps_in_range, traversal_steps, traverse_by,
    TraversalStep,
};

verus! {

/// Strings of the default locale missing in a foreign one & vice versa
#[derive(Debug, PartialEq)]
pub struct MissingStrings {
    pub extra_in_default_locale: Vec<AndroidString>,
    pub extra_in_foreign_locale: Vec<AndroidString>,
}

/// Localizable default strings the walk finds no foreign string for
pub open spec fn extra_defaults_from(defaults: Seq<AndroidString>, steps: Seq<TraversalStep>) -> Seq<AndroidString>
    decreases steps.len(),
{
    if steps.len() == 0 {
        Seq::empty()
    } else {
        let rest = extra_defaults_from(defaults, steps.drop_last());
        match steps.last() {
            TraversalStep::ExtraInList1(i) => if defaults[i as int]@.is_localizable {
                rest.push(defaults[i as int])
            } else {
                rest
            },
            _ => rest,
        }
    }
}

/// Foreign strings the walk finds no default string for
pub open spec fn extra_foreigns_from(foreign: Seq<AndroidString>, steps: Seq<TraversalStep>) -> Seq<AndroidString>
    decreases steps.len(),
{
    if steps.len() == 0 {
        Seq::empty()
    } else {
        let rest = extra_foreigns_from(foreign, steps.drop_last());
        match steps.last() {
            TraversalStep::ExtraInList2(j) => rest.push(foreign[j as int]),
            _ => rest,
        }
    }
}

/// Localizable default strings without a foreign string of the same name (the
/// lists being walked in name order)
pub open spec fn extra_in_default(defaults: Seq<AndroidString>, foreign: Seq<AndroidString>) -> Seq<AndroidString> {
    let d = sort_by_name(defaults);
    let f = sort_by_name(foreign);
    extra_defaults_from(d, traversal_steps(d, f, name_order()))
}

/// Foreign strings without a default string of the same name (the lists being
/// walked in name order)
pub open spec fn extra_in_foreign(defaults: Seq<AndroidString>, foreign: Seq<AndroidString>) -> Seq<AndroidString> {
    let d = sort_by_name(defaults);
    let f = sort_by_name(foreign);
    extra_foreigns_from(f, traversal_steps(d, f, name_order()))
}

/// Fails with the localizable default strings missing in the foreign locale &
/// the foreign strings missing in the default locale, if there are any. It is
/// ok for non-localizable strings to be present in default locale but not the
/// other way around. Both lists end up sorted by name
pub fn validate(default_strings: &mut [AndroidString], foreign_strings: &mut [AndroidString]) -> (r: Result<(), MissingStrings>)
    ensures
        final(default_strings)@ == sort_by_name(old(default_strings)@),
        final(foreign_strings)@ == sort_by_name(old(foreign_strings)@),
        match r {
            Ok(()) => extra_in_default(old(default_strings)@, old(foreign_strings)@).len() == 0
                && extra_in_foreign(old(default_strings)@, old(foreign_strings)@).len() == 0,
            Err(e) => (extra_in_default(old(default_strings)@, old(foreign_strings)@).len() > 0
                || extra_in_foreign(old(default_strings)@, old(foreign_strings)@).len() > 0)
                && e.extra_in_default_locale@ == extra_in_default(old(default_strings)@, old(foreign_strings)@)
                && e.extra_in_foreign_locale@ == extra_in_foreign(old(default_strings)@, old(foreign_strings)@),
        },
{
    sort_android_strings_by_name(default_strings);
    sort_android_strings_by_name(foreign_strings);
    let steps = traverse_by(default_strings, foreign_strings, compare_android_strings, Ghost(name_order()));
    let ghost ds = default_strings@;
    let ghost fs = foreign_strings@;
    let n1 = default_strings.len();
    let n2 = foreign_strings.len();
    proof {
        lemma_steps_in_range(ds, fs, name_order(), 0, 0);
    }
    let mut extra_in_default_locale: Vec<AndroidString> = Vec::new();
    let mut extra_in_foreign_locale: Vec<AndroidString> = Vec::new();
    let mut k: usize = 0;
    let ghost mut gk: int = 0;
    assert(steps@.take(0) =~= Seq::<TraversalStep>::empty());
    while k < steps.len()
        invariant
            gk == k,
            k <= steps@.len(),
            ds == default_strings@,
            fs == foreign_strings@,
            steps@ == traversal_steps(ds, fs, name_order()),
            steps_in_range(steps@, ds.len(), fs.len()),
            extra_in_default_locale@ == extra_defaults_from(ds, steps@.take(gk)),
            extra_in_foreign_locale@ == extra_foreigns_from(fs, steps@.take(gk)),
        decreases steps@.len() - gk,
    {
        proof {
            assert(steps@.take(gk + 1).drop_last() =~= steps@.take(gk));
            assert(steps@.take(gk + 1).last() == steps@[gk]);
        }
        match steps[k] {
            TraversalStep::ExtraInList1(i) => {
                if default_strings[i].is_localizable() {
                    extra_in_default_locale.push(default_strings[i].duplicate());
                }
            },
            TraversalStep::ExtraInList2(j) => {
                extra_in_foreign_locale.push(foreign_strings[j].duplicate());
            },
            TraversalStep::Equal(_, _) => {},
        }
        k = k + 1;
        proof {
            gk = gk + 1;
        }
    }
    assert(steps@.take(gk) =~= steps@);
    if extra_in_default_locale.len() == 0 && extra_in_foreign_locale.len() == 0 {
        Ok(())
    } else {
        Err(MissingStrings { extra_in_default_locale, extra_in_foreign_locale })
    }
}

/// A string is among the extra default strings a walk collects exactly when
/// the walk finds it extra & it is localizable
proof fn lemma_extra_defaults_contains(defaults: Seq<AndroidString>, steps: Seq<TraversalStep>, len2: nat, x: AndroidString)
    requires
        steps_in_range(steps, defaults.len(), len2),
        defaults.len() <= usize::MAX,
    ensures
        extra_defaults_from(defaults, steps).contains(x) <==> exists|i: int|
            0 <= i < defaults.len() && #[trigger] steps.contains(extra1_step(i)) && defaults[i] == x && x@.is_localizable,
    decreases steps.len(),
{
    if steps.len() > 0 {
        let d = steps.drop_last();
        assert(steps_in_range(d, defaults.len(), len2)) by {
            assert forall|m: int| 0 <= m < d.len() implies match #[trigger] d[m] {
                TraversalStep::Equal(i, j) => i < defaults.len() && j < len2,
                TraversalStep::ExtraInList1(i) => i < defaults.len(),
                TraversalStep::ExtraInList2(j) => j < len2,
            } by {
                assert(d[m] == steps[m]);
            }
        }
        lemma_extra_defaults_contains(defaults, d, len2, x);
        assert(d.push(steps.last()) =~= steps);
        assert forall|e: TraversalStep| steps.contains(e) == (d.contains(e) || e == steps.last()) by {
            if steps.contains(e) && e != steps.last() {
                let m = choose|m: int| 0 <= m < steps.len() && steps[m] == e;
                assert(d[m] == steps[m]);
            }
            if d.contains(e) {
                let m = choose|m: int| 0 <= m < d.len() && d[m] == e;
                assert(steps[m] == d[m]);
            }
            if e == steps.last() {
                assert(steps[steps.len() - 1] == e);
            }
        }
        assert(steps[steps.len() - 1] == steps.last());
        let rest = extra_defaults_from(defaults, d);
        let found = extra_defaults_from(defaults, steps);
        if found.contains(x) {
            if rest.contains(x) {
                let i = choose|i: int|
                    0 <= i < defaults.len() && #[trigger] d.contains(extra1_step(i)) && defaults[i] == x && x@.is_localizable;
                assert(steps.contains(extra1_step(i)));
            } else {
                if let TraversalStep::ExtraInList1(u) = steps.last() {
                    let i = u as int;
                    assert(extra1_step(i) == steps.last());
                    assert(found == rest.push(defaults[i]));
                    assert(x == defaults[i]);
                    assert(steps.contains(extra1_step(i)));
                } else {
                    assert(found == rest);
                }
            }
        }
        if exists|i: int| 0 <= i < defaults.len() && #[trigger] steps.contains(extra1_step(i)) && defaults[i] == x
            && x@.is_localizable {
            let i = choose|i: int|
                0 <= i < defaults.len() && #[trigger] steps.contains(extra1_step(i)) && defaults[i] == x && x@.is_localizable;
            if d.contains(extra1_step(i)) {
                assert(rest.contains(x));
                let m = choose|m: int| 0 <= m < rest.len() && rest[m] == x;
                assert(found == rest || found == rest.push(defaults[i]) || found.len() == rest.len() + 1);
                if let TraversalStep::ExtraInList1(u) = steps.last() {
                    if defaults[u as int]@.is_localizable {
                        assert(found[m] == rest[m]);
                    }
                }
                assert(found.contains(x));
            } else {
                assert(extra1_step(i) == steps.last());
                assert(found == rest.push(defaults[i]));
                assert(found[rest.len() as int] == x);
            }
        }
    }
}

/// A string is among the extra foreign strings a walk collects exactly when
/// the walk finds it extra
proof fn lemma_extra_foreigns_contains(foreign: Seq<AndroidString>, steps: Seq<TraversalStep>, len1: nat, x: AndroidString)
    requires
        steps_in_range(steps, len1, foreign.len()),
        foreign.len() <= usize::MAX,
    ensures
        extra_foreigns_from(foreign, steps).contains(x) <==> exists|j: int|
            0 <= j < foreign.len() && #[trigger] steps.contains(extra2_step(j)) && foreign[j] == x,
    decreases steps.len(),
{
    if steps.len() > 0 {
        let d = steps.drop_last();
        assert(steps_in_range(d, len1, foreign.len())) by {
            assert forall|m: int| 0 <= m < d.len() implies match #[trigger] d[m] {
                TraversalStep::Equal(i, j) => i < len1 && j < foreign.len(),
                TraversalStep::ExtraInList1(i) => i < len1,
                TraversalStep::ExtraInList2(j) => j < foreign.len(),
            } by {
                assert(d[m] == steps[m]);
            }
        }
        lemma_extra_foreigns_contains(foreign, d, len1, x);
        assert(d.push(steps.last()) =~= steps);
        assert forall|e: TraversalStep| steps.contains(e) == (d.contains(e) || e == steps.last()) by {
            if steps.contains(e) && e != steps.last() {
                let m = choose|m: int| 0 <= m < steps.len() && steps[m] == e;
                assert(d[m] == steps[m]);
            }
            if d.contains(e) {
                let m = choose|m: int| 0 <= m < d.len() && d[m] == e;
                assert(steps[m] == d[m]);
            }
            if e == steps.last() {
                assert(steps[steps.len() - 1] == e);
            }
        }
        assert(steps[steps.len() - 1] == steps.last());
        let rest = extra_foreigns_from(foreign, d);
        let found = extra_foreigns_from(foreign, steps);
        if found.contains(x) {
            if rest.contains(x) {
                let j = choose|j: int| 0 <= j < foreign.len() && #[trigger] d.contains(extra2_step(j)) && foreign[j] == x;
                assert(steps.contains(extra2_step(j)));
            } else {
                if let TraversalStep::ExtraInList2(u) = steps.last() {
                    let j = u as int;
                    assert(extra2_step(j) == steps.last());
                    assert(found == rest.push(foreign[j]));
                    assert(x == foreign[j]);
                    assert(steps.contains(extra2_step(j)));
                } else {
                    assert(found == rest);
                }
            }
        }
        if exists|j: int| 0 <= j < foreign.len() && #[trigger] steps.contains(extra2_step(j)) && foreign[j] == x {
            let j = choose|j: int| 0 <= j < foreign.len() && #[trigger] steps.contains(extra2_step(j)) && foreign[j] == x;
            if d.contains(extra2_step(j)) {
                assert(rest.contains(x));
                let m = choose|m: int| 0 <= m < rest.len() && rest[m] == x;
                if let TraversalStep::ExtraInList2(u) = steps.last() {
                    assert(found[m] == rest[m]);
                }
                assert(found.contains(x));
            } else {
                assert(extra2_step(j) == steps.last());
                assert(found == rest.push(foreign[j]));
                assert(found[rest.len() as int] == x);
            }
        }
    }
}

/// In strings files without repeated names, the localizable default strings
/// missing in a foreign locale are exactly the localizable default strings
/// whose name the foreign strings lack, & the foreign strings missing in the
/// default locale are exactly those whose name the default strings lack
pub proof fn lemma_missing_strings_by_name(defaults: Seq<AndroidString>, foreign: Seq<AndroidString>, x: AndroidString)
    requires
        has_distinct_names(defaults),
        has_distinct_names(foreign),
        defaults.len() <= usize::MAX,
        foreign.len() <= usize::MAX,
    ensures
        extra_in_default(defaults, foreign).contains(x) <==> (defaults.contains(x) && x@.is_localizable && !has_name(
            foreign,
            x@.name,
        )),
        extra_in_foreign(defaults, foreign).contains(x) <==> (foreign.contains(x) && !has_name(defaults, x@.name)),
{
    let sd = sort_by_name(defaults);
    let sf = sort_by_name(foreign);
    lemma_sort_is_permutation(defaults);
    lemma_sort_is_permutation(foreign);
    lemma_sort_distinct_is_strict(defaults);
    lemma_sort_distinct_is_strict(foreign);
    lemma_steps_in_range(sd, sf, name_order(), 0, 0);
    lemma_walk_by_name(sd, sf);
    let steps = traversal_steps(sd, sf, name_order());
    lemma_extra_defaults_contains(sd, steps, sf.len(), x);
    lemma_extra_foreigns_contains(sf, steps, sd.len(), x);
    lemma_sort_contains(defaults, x);
    lemma_sort_contains(foreign, x);
    lemma_sort_has_name(foreign, x@.name);
    lemma_sort_has_name(defaults, x@.name);
    assert(x.name_view() == x@.name);
    if sd.contains(x) {
        let i = choose|i: int| 0 <= i < sd.len() && sd[i] == x;
        assert(steps.contains(extra1_step(i)) == !has_name(sf, x@.name));
    }
    if sf.contains(x) {
        let j = choose|j: int| 0 <= j < sf.len() && sf[j] == x;
        assert(steps.contains(extra2_step(j)) == !has_name(sd, x@.name));
    }
}

} // verus!
