//! File filtering by include/exclude globs.

use vstd::prelude::*;
use globset::GlobSet;
use crate::error::AstDocError;
use crate::paths::{components, components_less, lemma_path_lt_asym, path_components, path_lt};
use crate::globs::{
    builder_add, builder_build, builder_globs, glob_parses, globs_compile, new_builder, new_glob,
    set_globs, set_is_empty, set_is_match, set_matches,
};

verus! {

broadcast use vstd::seq_lib::group_to_multiset_ensures;

/// Whether every pattern parses as a glob.
pub open spec fn all_parse(patterns: Seq<String>) -> bool {
    forall|i: int| 0 <= i < patterns.len() ==> glob_parses(#[trigger] patterns[i]@)
}

/// The pattern texts of a list of strings.
pub open spec fn pattern_texts(patterns: Seq<String>) -> Seq<Seq<char>> {
    patterns.map_values(|p: String| p@)
}

/// Whether a list of patterns compiles into a glob set.
pub open spec fn globset_builds(patterns: Seq<String>) -> bool {
    all_parse(patterns) && globs_compile(pattern_texts(patterns))
}

/// Build a `GlobSet` from a list of glob patterns.
///
/// Fails with `InvalidGlob` exactly when a pattern does not parse or the set does
/// not compile; the set holds the patterns in order.
pub fn build_globset(patterns: &[String]) -> (res: Result<GlobSet, AstDocError>)
    ensures
        res is Ok <==> globset_builds(patterns@),
        res matches Ok(set) ==> set_globs(set) == pattern_texts(patterns@),
        res matches Err(e) ==> e is InvalidGlob,
        patterns@.len() == 0 ==> res is Ok,
{
    let mut builder = new_builder();
    let mut i: usize = 0;
    while i < patterns.len()
        invariant
            i <= patterns@.len(),
            all_parse(patterns@.take(i as int)),
            builder_globs(builder) == pattern_texts(patterns@.take(i as int)),
        decreases patterns.len() - i,
    {
        let glob = match new_glob(patterns[i].as_str()) {
            Ok(glob) => glob,
            Err(e) => {
                return Err(AstDocError::InvalidGlob(e));
            },
        };
        builder_add(&mut builder, glob);
        i = i + 1;
        assert(patterns@.take(i as int).drop_last() =~= patterns@.take(i - 1));
        assert(pattern_texts(patterns@.take(i as int)) =~= pattern_texts(patterns@.take(i - 1)).push(
            patterns@[i - 1]@,
        ));
    }
    assert(patterns@.take(i as int) =~= patterns@);
    match builder_build(&builder) {
        Ok(set) => Ok(set),
        Err(e) => Err(AstDocError::InvalidGlob(e)),
    }
}

/// Determine whether a file should be included based on include/exclude globs.
///
/// An empty include set lets every path through; exclusion wins over inclusion.
pub fn should_include_file(path: &str, inclusions: &GlobSet, exclusions: &GlobSet) -> (res: bool)
    ensures
        res == ((set_globs(*inclusions).len() == 0 || set_matches(set_globs(*inclusions), path@))
            && !set_matches(set_globs(*exclusions), path@)),
{
    let included = set_is_empty(inclusions) || set_is_match(inclusions, path);
    let excluded = set_is_match(exclusions, path);
    included && !excluded
}


/// Whether a path passes the filters: an empty include set lets every path
/// through; exclusion wins over inclusion.
pub open spec fn admitted(path: Seq<char>, inclusions: GlobSet, exclusions: GlobSet) -> bool {
    (set_globs(inclusions).len() == 0 || set_matches(set_globs(inclusions), path)) && !set_matches(
        set_globs(exclusions),
        path,
    )
}

/// The candidates that pass the filters, in order.
pub open spec fn admitted_paths(candidates: Seq<String>, inclusions: GlobSet, exclusions: GlobSet) -> Seq<String>
    decreases candidates.len(),
{
    if candidates.len() == 0 {
        Seq::empty()
    } else {
        admitted_paths(candidates.drop_last(), inclusions, exclusions) + if admitted(
            candidates.last()@,
            inclusions,
            exclusions,
        ) {
            seq![candidates.last()]
        } else {
            Seq::empty()
        }
    }
}

/// Each path comes no later in `Path` order than the next one.
pub open spec fn sorted_paths(paths: Seq<String>) -> bool {
    forall|i: int| 0 <= i < paths.len() - 1 ==> !path_lt(#[trigger] paths[i + 1]@, paths[i]@)
}

/// The discovered files to keep: the candidates (paths relative to the root)
/// that pass the filters, sorted in `Path` order.
pub fn select_files(candidates: &[String], inclusions: &GlobSet, exclusions: &GlobSet) -> (res: Vec<String>)
    ensures
        sorted_paths(res@),
        res@.to_multiset() == admitted_paths(candidates@, *inclusions, *exclusions).to_multiset(),
{
    let mut out: Vec<String> = Vec::new();
    let mut keys: Vec<Vec<String>> = Vec::new();
    let mut i: usize = 0;
    while i < candidates.len()
        invariant
            i <= candidates@.len(),
            out@.len() == keys@.len(),
            forall|j: int| 0 <= j < keys@.len() ==> (#[trigger] keys@[j])@.map_values(|c: String| c@)
                == path_components(out@[j]@),
            sorted_paths(out@),
            out@.to_multiset() == admitted_paths(candidates@.take(i as int), *inclusions, *exclusions).to_multiset(),
        decreases candidates.len() - i,
    {
        proof {
            assert(candidates@.take(i + 1).drop_last() =~= candidates@.take(i as int));
        }
        let path = candidates[i].as_str();
        if should_include_file(path, inclusions, exclusions) {
            let key = components(path);
            let mut k: usize = 0;
            while k < out.len() && !components_less(&key, &keys[k])
                invariant
                    k <= out@.len(),
                    out@.len() == keys@.len(),
                    key@.map_values(|c: String| c@) == path_components(path@),
                    forall|j: int| 0 <= j < keys@.len() ==> (#[trigger] keys@[j])@.map_values(|c: String| c@)
                        == path_components(out@[j]@),
                    forall|j: int| 0 <= j < k ==> !path_lt(path@, #[trigger] out@[j]@),
                decreases out.len() - k,
            {
                proof {
                    assert(keys@[k as int]@.map_values(|c: String| c@) == path_components(out@[k as int]@));
                }
                k = k + 1;
            }
            let ghost before = out@;
            let ghost before_keys = keys@;
            assert(forall|j: int| 0 <= j < k ==> !path_lt(path@, #[trigger] before[j]@));
            assert(sorted_paths(before));
            proof {
                if k < out@.len() {
                    assert(keys@[k as int]@.map_values(|c: String| c@) == path_components(out@[k as int]@));
                    assert(path_lt(path@, out@[k as int]@));
                    lemma_path_lt_asym(path@, out@[k as int]@);
                }
            }
            let item = candidates[i].clone();
            out.insert(k, item);
            keys.insert(k, key);
            proof {
                assert(out@ == before.insert(k as int, item));
                assert forall|j: int| 0 <= j < out@.len() - 1 implies !path_lt(#[trigger] out@[j + 1]@, out@[j]@) by {
                    if j < k - 1 {
                        assert(out@[j] == before[j] && out@[j + 1] == before[j + 1]);
                        assert(!path_lt(before[j + 1]@, before[j]@));
                    } else if j == k - 1 {
                        assert(out@[j] == before[j] && out@[j + 1] == item);
                        assert(!path_lt(path@, before[j]@));
                    } else if j == k {
                        assert(out@[j] == item && out@[j + 1] == before[j]);
                        assert(!path_lt(before[k as int]@, path@));
                    } else {
                        assert(out@[j] == before[j - 1] && out@[j + 1] == before[j]);
                        assert(!path_lt(before[(j - 1) + 1]@, before[j - 1]@));
                    }
                }
                assert forall|j: int| 0 <= j < keys@.len() implies (#[trigger] keys@[j])@.map_values(|c: String| c@)
                    == path_components(out@[j]@) by {
                    if j < k {
                        assert(keys@[j] == before_keys[j] && out@[j] == before[j]);
                    } else if j > k {
                        assert(keys@[j] == before_keys[j - 1] && out@[j] == before[j - 1]);
                    }
                }
                assert(admitted_paths(candidates@.take(i + 1), *inclusions, *exclusions)
                    =~= admitted_paths(candidates@.take(i as int), *inclusions, *exclusions).push(candidates@[i as int]));
            }
        } else {
            proof {
                assert(admitted_paths(candidates@.take(i + 1), *inclusions, *exclusions)
                    =~= admitted_paths(candidates@.take(i as int), *inclusions, *exclusions));
            }
        }
        i = i + 1;
    }
    assert(candidates@.take(i as int) =~= candidates@);
    out
}

} // verus!
