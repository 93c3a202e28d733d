//! Bounded reclamation of orphaned thumbnail artifacts.
//!
//! The reclaimer looks at up to `limit` directory entries per invocation (a
//! cooperative throttle, so one sweep cannot stall the caller indefinitely);
//! repeated calls eventually cover the whole directory. Only artifact files
//! — names with the thumbnail extension — are candidates, and one is an
//! orphan exactly when its stem is not among the currently valid file
//! identities. The planner here decides which names to delete; the caller
//! performs the best-effort deletions.

use vstd::prelude::*;
use vstd::string::StrSliceExecFns;
use crate::strutil::{contains_str, str_eq};

verus! {

/// Position of the last `.` in a name, or -1 when it has none.
pub open spec fn last_dot(s: Seq<char>) -> int
    decreases s.len(),
{
    if s.len() == 0 {
        -1
    } else if s.last() == '.' {
        s.len() - 1
    } else {
        last_dot(s.drop_last())
    }
}

proof fn lemma_last_dot_at(s: Seq<char>, p: int)
    requires
        0 <= p < s.len(),
        s[p] == '.',
        forall|k: int| p < k < s.len() ==> s[k] != '.',
    ensures
        last_dot(s) == p,
    decreases s.len(),
{
    if p < s.len() - 1 {
        lemma_last_dot_at(s.drop_last(), p);
    }
}

proof fn lemma_no_dot(s: Seq<char>)
    requires
        forall|k: int| 0 <= k < s.len() ==> s[k] != '.',
    ensures
        last_dot(s) == -1,
    decreases s.len(),
{
    if s.len() > 0 {
        lemma_no_dot(s.drop_last());
    }
}

/// The stem of an artifact file name: what precedes the final `.jpg`. A name
/// without that extension, or nothing but the extension, is no artifact.
pub open spec fn artifact_stem(name: Seq<char>) -> Option<Seq<char>> {
    let p = last_dot(name);
    if p > 0 && name.skip(p + 1) == "jpg"@ {
        Some(name.take(p))
    } else {
        None
    }
}

/// An artifact name whose stem is not among the valid file identities.
pub open spec fn is_orphan(name: Seq<char>, valid: Seq<Seq<char>>) -> bool {
    match artifact_stem(name) {
        Some(stem) => !valid.contains(stem),
        None => false,
    }
}

/// The names deleted by one reclamation sweep: of the first `limit` directory
/// entries, exactly the orphans, in directory order.
pub open spec fn spec_plan(entries: Seq<Seq<char>>, valid: Seq<Seq<char>>, limit: nat) -> Seq<
    Seq<char>,
>
    decreases entries.len(),
{
    if entries.len() == 0 || limit == 0 {
        Seq::empty()
    } else {
        let rest = spec_plan(entries.drop_first(), valid, (limit - 1) as nat);
        if is_orphan(entries[0], valid) {
            seq![entries[0]] + rest
        } else {
            rest
        }
    }
}

/// Law: a sweep deletes only artifacts whose stem is not a valid identity,
/// and deletes every such artifact among the entries it was allowed to scan.
pub proof fn lemma_cleanup_plan_properties(
    entries: Seq<Seq<char>>,
    valid: Seq<Seq<char>>,
    limit: nat,
)
    ensures
        forall|k: int|
            0 <= k < spec_plan(entries, valid, limit).len() ==> is_orphan(
                #[trigger] spec_plan(entries, valid, limit)[k],
                valid,
            ),
        forall|e: int|
            0 <= e < entries.len() && e < limit && is_orphan(#[trigger] entries[e], valid)
                ==> spec_plan(entries, valid, limit).contains(entries[e]),
    decreases entries.len(),
{
    if entries.len() > 0 && limit > 0 {
        let rest = spec_plan(entries.drop_first(), valid, (limit - 1) as nat);
        let plan = spec_plan(entries, valid, limit);
        lemma_cleanup_plan_properties(entries.drop_first(), valid, (limit - 1) as nat);
        assert forall|k: int| 0 <= k < plan.len() implies is_orphan(#[trigger] plan[k], valid) by {
            if is_orphan(entries[0], valid) {
                if k > 0 {
                    assert(plan[k] == rest[k - 1]);
                }
            }
        }
        assert forall|e: int|
            0 <= e < entries.len() && e < limit && is_orphan(
                #[trigger] entries[e],
                valid,
            ) implies plan.contains(entries[e]) by {
            if e == 0 {
                assert(plan[0] == entries[0]);
            } else {
                assert(entries.drop_first()[e - 1] == entries[e]);
                assert(rest.contains(entries[e]));
                let w = choose|w: int| 0 <= w < rest.len() && rest[w] == entries[e];
                if is_orphan(entries[0], valid) {
                    assert(plan[w + 1] == rest[w]);
                } else {
                    assert(plan[w] == rest[w]);
                }
            }
        }
    }
}

/// Law: the artifact file name the cache derives for a file identity is
/// recognized by the reclaimer, and its stem is that identity again.
pub proof fn lemma_artifact_name_recognized(file_id: Seq<char>)
    requires
        file_id.len() > 0,
    ensures
        artifact_stem(file_id + ".jpg"@) == Some(file_id),
{
    reveal_strlit(".jpg");
    reveal_strlit("jpg");
    let name = file_id + ".jpg"@;
    let p = file_id.len() as int;
    assert(name[p] == '.');
    assert(forall|k: int| p < k < name.len() ==> name[k] != '.');
    lemma_last_dot_at(name, p);
    assert(name.skip(p + 1) =~= "jpg"@);
    assert(name.take(p) =~= file_id);
}

pub(crate) fn find_last_dot(name: &str) -> (r: Option<usize>)
    ensures
        match r {
            Some(p) => p < name@.len() && last_dot(name@) == p,
            None => last_dot(name@) == -1,
        },
{
    let n = name.unicode_len();
    let mut k = n;
    while k > 0
        invariant
            k <= n,
            n == name@.len(),
            forall|j: int| k <= j < n ==> name@[j] != '.',
        decreases k,
    {
        let c = name.get_char(k - 1);
        if c == '.' {
            proof {
                lemma_last_dot_at(name@, k - 1);
            }
            return Some(k - 1);
        }
        k = k - 1;
    }
    proof {
        lemma_no_dot(name@);
    }
    None
}

/// The stem of an artifact file name, or nothing for a non-artifact.
pub fn artifact_stem_of(name: &str) -> (r: Option<String>)
    ensures
        match r {
            Some(stem) => artifact_stem(name@) == Some(stem@),
            None => artifact_stem(name@) is None,
        },
{
    let n = name.unicode_len();
    match find_last_dot(name) {
        Some(p) => {
            if p > 0 {
                let ext = name.substring_char(p + 1, n);
                proof {
                    assert(ext@ =~= name@.skip(p + 1));
                }
                if str_eq(ext, "jpg") {
                    let stem = name.substring_char(0, p).to_owned();
                    proof {
                        assert(stem@ =~= name@.take(p as int));
                    }
                    Some(stem)
                } else {
                    None
                }
            } else {
                None
            }
        },
        None => None,
    }
}

fn is_orphan_exec(name: &str, valid_file_ids: &Vec<String>) -> (b: bool)
    ensures
        b == is_orphan(name@, valid_file_ids@.map_values(|s: String| s@)),
{
    match artifact_stem_of(name) {
        Some(stem) => !contains_str(valid_file_ids, stem.as_str()),
        None => false,
    }
}

/// Decides one reclamation sweep: of the first `limit` entries of the
/// thumbnail directory, returns the names of the orphaned artifacts, in
/// order. The caller deletes each returned name, best effort, and reports
/// how many deletions it performed.
pub fn plan_orphan_cleanup(entries: &Vec<String>, valid_file_ids: &Vec<String>, limit: usize) -> (r:
    Vec<String>)
    ensures
        r@.map_values(|s: String| s@) == spec_plan(
            entries@.map_values(|s: String| s@),
            valid_file_ids@.map_values(|s: String| s@),
            limit as nat,
        ),
{
    let ghost evs = entries@.map_values(|s: String| s@);
    let ghost vvs = valid_file_ids@.map_values(|s: String| s@);
    let mut out: Vec<String> = Vec::new();
    let n = entries.len();
    let mut i: usize = 0;
    proof {
        assert(evs.skip(0) =~= evs);
        assert(out@.map_values(|s: String| s@) + spec_plan(evs, vvs, limit as nat) =~= spec_plan(
            evs,
            vvs,
            limit as nat,
        ));
    }
    while i < n && i < limit
        invariant
            i <= n,
            i <= limit,
            n == entries@.len(),
            evs == entries@.map_values(|s: String| s@),
            vvs == valid_file_ids@.map_values(|s: String| s@),
            spec_plan(evs, vvs, limit as nat) == out@.map_values(|s: String| s@) + spec_plan(
                evs.skip(i as int),
                vvs,
                (limit - i) as nat,
            ),
        decreases n - i,
    {
        let orphan = is_orphan_exec(entries[i].as_str(), valid_file_ids);
        proof {
            assert(evs.skip(i as int)[0] == evs[i as int]);
            assert(evs[i as int] == entries@[i as int]@);
            assert(evs.skip(i as int).drop_first() =~= evs.skip(i + 1));
            assert(evs.skip(i as int).len() == n - i);
        }
        if orphan {
            let name = entries[i].clone();
            proof {
                let f = |s: String| s@;
                assert(out@.push(name).map_values(f) =~= out@.map_values(f).push(name@));
                assert(out@.map_values(f).push(name@) + spec_plan(
                    evs.skip(i + 1),
                    vvs,
                    (limit - i - 1) as nat,
                ) =~= out@.map_values(f) + (seq![name@] + spec_plan(
                    evs.skip(i + 1),
                    vvs,
                    (limit - i - 1) as nat,
                )));
            }
            out.push(name);
        }
        i = i + 1;
    }
    proof {
        if i == n {
            assert(evs.skip(i as int).len() == 0);
        }
        assert(spec_plan(evs.skip(i as int), vvs, (limit - i) as nat) =~= Seq::<Seq<char>>::empty());
        assert(out@.map_values(|s: String| s@) + Seq::<Seq<char>>::empty() =~= out@.map_values(
            |s: String| s@,
        ));
    }
    out
}

} // verus!
