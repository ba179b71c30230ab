//! What every synchronisation plan guarantees, whatever the manifests.

use vstd::prelude::*;
use crate::grab::{install_all, key_of, merge_from, ordered, plan_spec, stale, valid_at, LocalManifest, Plugin, Step};
use crate::key::{lemma_lex_irreflexive, lemma_lex_total, lemma_lex_transitive, lex_lt};

verus! {

proof fn lemma_concat_contains(a: Seq<Step>, b: Seq<Step>, x: Step)
    ensures
        a.contains(x) ==> (a + b).contains(x),
        b.contains(x) ==> (a + b).contains(x),
{
    if a.contains(x) {
        let k = choose|k: int| 0 <= k < a.len() && a[k] == x;
        assert((a + b)[k] == x);
    }
    if b.contains(x) {
        let k = choose|k: int| 0 <= k < b.len() && b[k] == x;
        assert((a + b)[a.len() + k] == x);
    }
}

proof fn lemma_unmatched_removed(l: Seq<Plugin>, r: Seq<Plugin>, v: Seq<bool>, i0: nat, j0: nat, i: int)
    requires
        i0 <= i < l.len(),
        forall|j: int| j0 <= j < r.len() ==> key_of(#[trigger] r[j]) != key_of(l[i]),
    ensures
        merge_from(l, r, v, i0, j0).contains(Step::Remove(i as usize)),
    decreases (if i0 < l.len() { l.len() - i0 } else { 0 }) + (if j0 < r.len() { r.len() - j0 } else { 0 }),
{
    let x = Step::Remove(i as usize);
    if j0 >= r.len() || lex_lt(key_of(l[i0 as int]), key_of(r[j0 as int])) {
        let rest = merge_from(l, r, v, i0 + 1, j0);
        if i0 == i {
            assert((seq![x] + rest)[0] == x);
        } else {
            lemma_unmatched_removed(l, r, v, i0 + 1, j0, i);
            lemma_concat_contains(seq![Step::Remove(i0 as usize)], rest, x);
        }
    } else if key_of(l[i0 as int]) == key_of(r[j0 as int]) {
        let head = if stale(l[i0 as int], r[j0 as int], valid_at(v, i0 as int)) {
            seq![Step::Remove(i0 as usize), Step::Install(j0 as usize)]
        } else {
            Seq::empty()
        };
        lemma_unmatched_removed(l, r, v, i0 + 1, j0 + 1, i);
        lemma_concat_contains(head, merge_from(l, r, v, i0 + 1, j0 + 1), x);
    } else {
        lemma_unmatched_removed(l, r, v, i0, j0 + 1, i);
        lemma_concat_contains(seq![Step::Install(j0 as usize)], merge_from(l, r, v, i0, j0 + 1), x);
    }
}

proof fn lemma_installed_or_kept(l: Seq<Plugin>, r: Seq<Plugin>, v: Seq<bool>, i0: nat, j0: nat, j: int)
    requires
        j0 <= j < r.len(),
    ensures
        merge_from(l, r, v, i0, j0).contains(Step::Install(j as usize)) || exists|i: int|
            i0 <= i < l.len() && key_of(#[trigger] l[i]) == key_of(r[j]) && !stale(l[i], r[j], valid_at(v, i)),
    decreases (if i0 < l.len() { l.len() - i0 } else { 0 }) + (if j0 < r.len() { r.len() - j0 } else { 0 }),
{
    let x = Step::Install(j as usize);
    if i0 < l.len() && lex_lt(key_of(l[i0 as int]), key_of(r[j0 as int])) {
        lemma_installed_or_kept(l, r, v, i0 + 1, j0, j);
        lemma_concat_contains(seq![Step::Remove(i0 as usize)], merge_from(l, r, v, i0 + 1, j0), x);
    } else if i0 < l.len() && key_of(l[i0 as int]) == key_of(r[j0 as int]) {
        let renew = stale(l[i0 as int], r[j0 as int], valid_at(v, i0 as int));
        let head = if renew {
            seq![Step::Remove(i0 as usize), Step::Install(j0 as usize)]
        } else {
            Seq::empty()
        };
        let rest = merge_from(l, r, v, i0 + 1, j0 + 1);
        if j == j0 {
            if renew {
                assert((head + rest)[1] == x);
            } else {
                assert(key_of(l[i0 as int]) == key_of(r[j]));
            }
        } else {
            lemma_installed_or_kept(l, r, v, i0 + 1, j0 + 1, j);
            lemma_concat_contains(head, rest, x);
        }
    } else {
        let rest = merge_from(l, r, v, i0, j0 + 1);
        if j == j0 {
            assert((seq![x] + rest)[0] == x);
        } else {
            lemma_installed_or_kept(l, r, v, i0, j0 + 1, j);
            lemma_concat_contains(seq![Step::Install(j0 as usize)], rest, x);
        }
    }
}

proof fn lemma_same_manifest_noop(s: Seq<Plugin>, v: Seq<bool>, i: nat)
    requires
        i <= s.len(),
        forall|k: int| 0 <= k < s.len() ==> valid_at(v, k),
    ensures
        merge_from(s, s, v, i, i) == Seq::<Step>::empty(),
    decreases s.len() - i,
{
    if i < s.len() {
        lemma_lex_irreflexive(key_of(s[i as int]));
        assert(valid_at(v, i as int));
        lemma_same_manifest_noop(s, v, i + 1);
        assert(Seq::<Step>::empty() + Seq::<Step>::empty() =~= Seq::<Step>::empty());
    }
}

/// Synchronising again against the manifest that the last synchronisation
/// installed and persisted, with every plugin still whole on disk and no
/// wipe asked for, removes and installs nothing.
pub proof fn law_resync_is_noop(fetched: Seq<Plugin>, persisted: Vec<Plugin>, valid: Seq<bool>)
    requires
        ordered(fetched),
        persisted@ == fetched,
        forall|k: int| 0 <= k < fetched.len() ==> valid_at(valid, k),
    ensures
        plan_spec(fetched, false, true, LocalManifest::Parsed(persisted), valid) == Seq::<Step>::empty(),
{
    lemma_same_manifest_noop(fetched, valid, 0);
}

/// Every fetched plugin is installed by the plan, unless the local manifest
/// holds a plugin with the same key that was found whole, with the same
/// version and digest, and is left in place.
pub proof fn law_every_plugin_provided(
    remote: Seq<Plugin>,
    wipe: bool,
    dir_exists: bool,
    local: LocalManifest,
    valid: Seq<bool>,
    j: int,
)
    requires
        0 <= j < remote.len(),
    ensures
        plan_spec(remote, wipe, dir_exists, local, valid).contains(Step::Install(j as usize)) || (
        local matches LocalManifest::Parsed(l) && exists|i: int|
            0 <= i < l@.len() && key_of(#[trigger] l@[i]) == key_of(remote[j]) && !stale(
                l@[i],
                remote[j],
                valid_at(valid, i),
            )),
{
    let x = Step::Install(j as usize);
    let plan = plan_spec(remote, wipe, dir_exists, local, valid);
    match local {
        LocalManifest::Parsed(l) => {
            if dir_exists && !wipe && ordered(l@) {
                lemma_installed_or_kept(l@, remote, valid, 0, 0, j);
            } else {
                assert(plan[j + 1] == x);
            }
        },
        _ => {
            assert(plan[j + 1] == x);
        },
    }
}

/// Every plugin of a local manifest whose key matches no fetched plugin is
/// removed by the plan, unless the plan starts by creating or clearing the
/// plugins directory or by reinstalling BepInEx, which takes it away with
/// the rest.
pub proof fn law_unlisted_plugins_removed(
    remote: Seq<Plugin>,
    wipe: bool,
    dir_exists: bool,
    local: Vec<Plugin>,
    valid: Seq<bool>,
    i: int,
)
    requires
        0 <= i < local@.len(),
        forall|j: int| 0 <= j < remote.len() ==> key_of(#[trigger] remote[j]) != key_of(local@[i]),
    ensures
        ({
            let plan = plan_spec(remote, wipe, dir_exists, LocalManifest::Parsed(local), valid);
            plan.contains(Step::Remove(i as usize)) || plan[0] == Step::CreateContentDir || plan[0]
                == Step::ClearContentDir || plan[0] == Step::ResetRuntime
        }),
{
    if dir_exists && !wipe && ordered(local@) {
        lemma_unmatched_removed(local@, remote, valid, 0, 0, i);
    }
}

/// With a wipe asked for, the plan is that of a fresh install, whatever the
/// local manifest and whatever was found on disk.
pub proof fn law_wipe_is_fresh_install(
    remote: Seq<Plugin>,
    local: LocalManifest,
    valid: Seq<bool>,
    found: Seq<bool>,
)
    ensures
        plan_spec(remote, true, true, local, valid) == plan_spec(remote, false, true, LocalManifest::Absent, found),
        plan_spec(remote, true, true, local, valid) == seq![Step::ClearContentDir] + install_all(remote.len()),
{
}

/// A local manifest that does not parse leads to BepInEx being reinstalled
/// and then every fetched plugin installed, in order, with nothing merged.
pub proof fn law_corrupt_manifest_reinstalls(remote: Seq<Plugin>, valid: Seq<bool>)
    ensures
        ({
            let plan = plan_spec(remote, false, true, LocalManifest::Corrupt, valid);
            &&& plan == seq![Step::ResetRuntime] + install_all(remote.len())
            &&& forall|k: int| 0 <= k < plan.len() ==> !(#[trigger] plan[k] is Remove)
        }),
{
    let plan = plan_spec(remote, false, true, LocalManifest::Corrupt, valid);
    assert forall|k: int| 0 <= k < plan.len() implies !(#[trigger] plan[k] is Remove) by {
        if k > 0 {
            assert(plan[k] == install_all(remote.len())[k - 1]);
        }
    }
}

proof fn lemma_concat_split(a: Seq<Step>, b: Seq<Step>, x: Step)
    ensures
        (a + b).contains(x) ==> a.contains(x) || b.contains(x),
{
    if (a + b).contains(x) {
        let k = choose|k: int| 0 <= k < (a + b).len() && (a + b)[k] == x;
        if k < a.len() {
            assert(a[k] == x);
        } else {
            assert(b[k - a.len()] == x);
        }
    }
}

/// In an ordered manifest, the key at `a` does not come after the key at `b`.
proof fn lemma_ordered_le(s: Seq<Plugin>, a: int, b: int, k: Seq<char>)
    requires
        ordered(s),
        0 <= a <= b < s.len(),
        lex_lt(k, key_of(s[a])),
    ensures
        lex_lt(k, key_of(s[b])),
{
    if a < b {
        lemma_lex_transitive(k, key_of(s[a]), key_of(s[b]));
    }
}

proof fn lemma_fresh_pair_untouched(
    l: Seq<Plugin>,
    r: Seq<Plugin>,
    v: Seq<bool>,
    i0: nat,
    j0: nat,
    i: int,
    j: int,
)
    requires
        ordered(l),
        ordered(r),
        l.len() <= usize::MAX,
        r.len() <= usize::MAX,
        0 <= i < l.len(),
        0 <= j < r.len(),
        key_of(l[i]) == key_of(r[j]),
        !stale(l[i], r[j], valid_at(v, i)),
        forall|a: int, b: int| 0 <= a < i0 && j0 <= b < r.len() ==> lex_lt(key_of(#[trigger] l[a]), key_of(#[trigger] r[b])),
        forall|a: int, b: int| i0 <= a < l.len() && 0 <= b < j0 ==> lex_lt(key_of(#[trigger] r[b]), key_of(#[trigger] l[a])),
    ensures
        !merge_from(l, r, v, i0, j0).contains(Step::Remove(i as usize)),
        !merge_from(l, r, v, i0, j0).contains(Step::Install(j as usize)),
    decreases (if i0 < l.len() { l.len() - i0 } else { 0 }) + (if j0 < r.len() { r.len() - j0 } else { 0 }),
{
    let xr = Step::Remove(i as usize);
    let xi = Step::Install(j as usize);
    let kk = key_of(l[i]);
    lemma_lex_irreflexive(kk);
    if i0 >= l.len() && j0 >= r.len() {
    } else if j0 >= r.len() || (i0 < l.len() && lex_lt(key_of(l[i0 as int]), key_of(r[j0 as int]))) {
        let head = seq![Step::Remove(i0 as usize)];
        let rest = merge_from(l, r, v, i0 + 1, j0);
        if i0 as int == i {
            if j < j0 {
                assert(lex_lt(key_of(r[j]), key_of(l[i])));
            } else {
                lemma_ordered_le(r, j0 as int, j, key_of(l[i0 as int]));
            }
        }
        assert forall|a: int, b: int| 0 <= a < i0 + 1 && j0 <= b < r.len() implies lex_lt(key_of(#[trigger] l[a]), key_of(#[trigger] r[b])) by {
            if a == i0 {
                lemma_ordered_le(r, j0 as int, b, key_of(l[a]));
            }
        }
        lemma_fresh_pair_untouched(l, r, v, i0 + 1, j0, i, j);
        lemma_concat_split(head, rest, xr);
        lemma_concat_split(head, rest, xi);
    } else if i0 < l.len() && key_of(l[i0 as int]) == key_of(r[j0 as int]) {
        let renew = stale(l[i0 as int], r[j0 as int], valid_at(v, i0 as int));
        let head = if renew {
            seq![Step::Remove(i0 as usize), Step::Install(j0 as usize)]
        } else {
            Seq::empty()
        };
        let rest = merge_from(l, r, v, i0 + 1, j0 + 1);
        if renew {
            if i0 as int == i && j0 as int != j {
                if j < j0 {
                    assert(lex_lt(key_of(r[j]), key_of(r[j0 as int])));
                } else {
                    assert(lex_lt(key_of(r[j0 as int]), key_of(r[j])));
                }
            }
            if j0 as int == j && i0 as int != i {
                if i < i0 {
                    assert(lex_lt(key_of(l[i]), key_of(l[i0 as int])));
                } else {
                    assert(lex_lt(key_of(l[i0 as int]), key_of(l[i])));
                }
            }
            assert(i0 as int != i);
            assert(j0 as int != j);
            assert(head[0] != xr && head[1] != xr);
            assert(head[0] != xi && head[1] != xi);
            assert(!head.contains(xr));
            assert(!head.contains(xi));
        }
        assert forall|a: int, b: int| 0 <= a < i0 + 1 && j0 + 1 <= b < r.len() implies lex_lt(key_of(#[trigger] l[a]), key_of(#[trigger] r[b])) by {
            if a == i0 {
                assert(lex_lt(key_of(r[j0 as int]), key_of(r[b])));
            } else {
                assert(lex_lt(key_of(l[a]), key_of(r[b])));
            }
        }
        assert forall|a: int, b: int| i0 + 1 <= a < l.len() && 0 <= b < j0 + 1 implies lex_lt(key_of(#[trigger] r[b]), key_of(#[trigger] l[a])) by {
            if b == j0 {
                assert(lex_lt(key_of(l[i0 as int]), key_of(l[a])));
            } else {
                assert(lex_lt(key_of(r[b]), key_of(l[a])));
            }
        }
        lemma_fresh_pair_untouched(l, r, v, i0 + 1, j0 + 1, i, j);
        lemma_concat_split(head, rest, xr);
        lemma_concat_split(head, rest, xi);
    } else {
        let head = seq![Step::Install(j0 as usize)];
        let rest = merge_from(l, r, v, i0, j0 + 1);
        if i0 < l.len() {
            lemma_lex_total(key_of(l[i0 as int]), key_of(r[j0 as int]));
        }
        if j0 as int == j {
            if i < i0 {
                assert(lex_lt(key_of(l[i]), key_of(r[j])));
            } else {
                lemma_ordered_le(l, i0 as int, i, key_of(r[j0 as int]));
            }
        }
        assert forall|a: int, b: int| i0 <= a < l.len() && 0 <= b < j0 + 1 implies lex_lt(key_of(#[trigger] r[b]), key_of(#[trigger] l[a])) by {
            if b == j0 {
                lemma_ordered_le(l, i0 as int, a, key_of(r[b]));
            }
        }
        lemma_fresh_pair_untouched(l, r, v, i0, j0 + 1, i, j);
        lemma_concat_split(head, rest, xr);
        lemma_concat_split(head, rest, xi);
    }
}

/// With both manifests ordered, a local plugin that has a fetched
/// counterpart with the same key, version and digest, and that was found
/// whole on disk, is neither removed nor installed again.
pub proof fn law_unchanged_plugins_kept(
    remote: Vec<Plugin>,
    local: Vec<Plugin>,
    valid: Seq<bool>,
    i: int,
    j: int,
)
    requires
        ordered(remote@),
        ordered(local@),
        0 <= i < local@.len(),
        0 <= j < remote@.len(),
        key_of(local@[i]) == key_of(remote@[j]),
        !stale(local@[i], remote@[j], valid_at(valid, i)),
    ensures
        ({
            let plan = plan_spec(remote@, false, true, LocalManifest::Parsed(local), valid);
            !plan.contains(Step::Remove(i as usize)) && !plan.contains(Step::Install(j as usize))
        }),
{
    assert(local@.len() == local.len());
    assert(remote@.len() == remote.len());
    lemma_fresh_pair_untouched(local@, remote@, valid, 0, 0, i, j);
}

} // verus!
