//! Weight files of a sharded model: a manifest maps each tensor to the shard
//! file that holds it, and the files to load are the distinct shards named.
use crate::json::{
    json_as_object, json_as_str, json_field, json_get, json_map_values, json_object, json_parse,
    json_string, json_values, parsed_json,
};
use crate::prompter::views;
use vstd::prelude::*;
use vstd::string::*;

verus! {

/// Why a manifest gave no list of shards.
#[derive(Debug, Clone, Copy, PartialEq, Eq, Structural)]
pub enum ManifestError {
    /// The text is not JSON.
    Parse,
    /// There is no `weight_map` entry.
    MissingWeightMap,
    /// The `weight_map` entry is not an object.
    WeightMapNotObject,
}

/// Whether `name` is among `names`.
pub fn contains_name(names: &Vec<String>, name: &String) -> (r: bool)
    ensures
        r == views(names@).contains(name@),
{
    let mut i: usize = 0;
    while i < names.len()
        invariant
            i <= names@.len(),
            forall|k: int| 0 <= k < i ==> names@[k]@ != name@,
        decreases names@.len() - i,
    {
        if names[i] == *name {
            assert(views(names@)[i as int] == name@);
            return true;
        }
        i = i + 1;
    }
    proof {
        if views(names@).contains(name@) {
            let k = choose|k: int| 0 <= k < views(names@).len() && views(names@)[k] == name@;
            assert(names@[k]@ == name@);
        }
    }
    false
}

/// The distinct names of `names`, each once, in the order of their first
/// occurrence.
pub fn unique_shards(names: &Vec<String>) -> (r: Vec<String>)
    ensures
        views(r@).no_duplicates(),
        forall|x: Seq<char>| views(r@).contains(x) <==> views(names@).contains(x),
{
    let mut out: Vec<String> = Vec::new();
    let mut i: usize = 0;
    while i < names.len()
        invariant
            i <= names@.len(),
            views(out@).no_duplicates(),
            forall|x: Seq<char>|
                views(out@).contains(x) <==> views(names@.subrange(0, i as int)).contains(x),
        decreases names@.len() - i,
    {
        let ghost before = views(out@);
        let ghost seen = views(names@.subrange(0, i as int));
        let ghost seen_next = views(names@.subrange(0, i as int + 1));
        proof {
            assert(seen_next =~= seen.push(names@[i as int]@));
        }
        if !contains_name(&out, &names[i]) {
            out.push(names[i].clone());
            proof {
                assert(views(out@) =~= before.push(names@[i as int]@));
                assert forall|a: int, b: int|
                    0 <= a < views(out@).len() && 0 <= b < views(out@).len() && a != b implies
                    views(out@)[a] != views(out@)[b] by {
                    if a < before.len() && b < before.len() {
                        assert(before[a] != before[b]);
                    } else if a < before.len() {
                        assert(before.contains(before[a]));
                    } else {
                        assert(before.contains(before[b]));
                    }
                }
                assert forall|x: Seq<char>|
                    views(out@).contains(x) <==> seen_next.contains(x) by {
                    if views(out@).contains(x) {
                        let k = choose|k: int| 0 <= k < views(out@).len() && views(out@)[k] == x;
                        if k < before.len() {
                            assert(before.contains(x));
                            let j = choose|j: int| 0 <= j < seen.len() && seen[j] == x;
                            assert(seen_next[j] == x);
                        } else {
                            assert(seen_next[i as int] == x);
                        }
                    }
                    if seen_next.contains(x) {
                        let j = choose|j: int| 0 <= j < seen_next.len() && seen_next[j] == x;
                        if j < i {
                            assert(seen[j] == x);
                            assert(before.contains(x));
                            let k = choose|k: int| 0 <= k < before.len() && before[k] == x;
                            assert(views(out@)[k] == x);
                        } else {
                            assert(views(out@)[before.len() as int] == x);
                        }
                    }
                }
            }
        } else {
            proof {
                assert forall|x: Seq<char>|
                    views(out@).contains(x) <==> seen_next.contains(x) by {
                    if seen_next.contains(x) {
                        let j = choose|j: int| 0 <= j < seen_next.len() && seen_next[j] == x;
                        if j < i {
                            assert(seen[j] == x);
                        }
                    }
                    if seen.contains(x) {
                        let j = choose|j: int| 0 <= j < seen.len() && seen[j] == x;
                        assert(seen_next[j] == x);
                    }
                }
            }
        }
        i = i + 1;
    }
    proof {
        assert(names@.subrange(0, i as int) =~= names@);
    }
    out
}

/// The values of a manifest's `weight_map`, each read as a string where it
/// is one, or why the manifest has none.
pub open spec fn manifest_values(manifest: serde_json::Value) -> Result<Seq<Option<Seq<char>>>, ManifestError> {
    match json_field(manifest, "weight_map"@) {
        None => Err(ManifestError::MissingWeightMap),
        Some(w) => match json_object(w) {
            None => Err(ManifestError::WeightMapNotObject),
            Some(m) => Ok(Seq::new(json_values(m).len(), |i: int| json_string(json_values(m)[i]))),
        },
    }
}

/// The strings among a list of optional strings.
pub open spec fn named_texts(values: Seq<Option<Seq<char>>>) -> Set<Seq<char>> {
    Set::new(|x: Seq<char>| exists|i: int| 0 <= i < values.len() && #[trigger] values[i] == Some(x))
}

pub open spec fn opt_views(values: Seq<Option<String>>) -> Seq<Option<Seq<char>>> {
    Seq::new(
        values.len(),
        |i: int|
            match values[i] {
                Some(s) => Some(s@),
                None => None,
            },
    )
}

/// `r` is what a manifest whose weight-map values are `expected` gives:
/// the error itself, or each named shard once.
pub open spec fn answers(r: Result<Vec<String>, ManifestError>, expected: Result<Seq<Option<Seq<char>>>, ManifestError>) -> bool {
    match expected {
        Err(e) => r == Err::<Vec<String>, ManifestError>(e),
        Ok(vals) => r is Ok && views(r->Ok_0@).no_duplicates() && forall|x: Seq<char>|
            views(r->Ok_0@).contains(x) <==> named_texts(vals).contains(x),
    }
}

proof fn lemma_named(values: Seq<Option<String>>, x: Seq<char>)
    ensures
        named_shards(values).contains(x) <==> named_texts(opt_views(values)).contains(x),
{
    let ov = opt_views(values);
    if named_shards(values).contains(x) {
        let i = choose|i: int| 0 <= i < values.len() && #[trigger] names_value(values[i], x);
        assert(ov[i] == Some(x));
    }
    if named_texts(ov).contains(x) {
        let i = choose|i: int| 0 <= i < ov.len() && #[trigger] ov[i] == Some(x);
        assert(names_value(values[i], x));
    }
}

/// The shard files that a parsed manifest names: the string values of its
/// `weight_map` object, each once. Values that are not strings are passed
/// over.
pub fn weight_map_files(manifest: &serde_json::Value) -> (r: Result<Vec<String>, ManifestError>)
    ensures
        answers(r, manifest_values(*manifest)),
{
    let weight_map = match json_get(manifest, "weight_map") {
        None => return Err(ManifestError::MissingWeightMap),
        Some(v) => v,
    };
    let map = match json_as_object(&weight_map) {
        None => return Err(ManifestError::WeightMapNotObject),
        Some(m) => m,
    };
    let values = json_map_values(&map);
    let mut strings: Vec<Option<String>> = Vec::new();
    let mut i: usize = 0;
    while i < values.len()
        invariant
            i <= values@.len(),
            values@ == json_values(map),
            strings@.len() == i,
            opt_views(strings@) =~= Seq::new(i as nat, |k: int| json_string(values@[k])),
        decreases values@.len() - i,
    {
        let ghost before = strings@;
        let sv = json_as_str(&values[i]);
        strings.push(sv);
        proof {
            assert(strings@ == before.push(sv));
            assert(strings@[i as int] == sv);
            assert(opt_views(strings@)[i as int] == json_string(values@[i as int]));
            assert forall|k: int| 0 <= k < i implies opt_views(strings@)[k] == json_string(values@[k]) by {
                assert(strings@[k] == before[k]);
                assert(opt_views(before)[k] == json_string(values@[k]));
            }
            assert(opt_views(strings@) =~= Seq::new(i as nat + 1, |k: int| json_string(values@[k])));
        }
        i = i + 1;
    }
    let r = shards_from_values(&strings);
    proof {
        assert forall|x: Seq<char>| views(r@).contains(x) <==> named_texts(opt_views(strings@)).contains(x) by {
            lemma_named(strings@, x);
        }
    }
    Ok(r)
}

/// The shard files that the manifest text `text` names, each once.
pub fn parse_manifest(text: &str) -> (r: Result<Vec<String>, ManifestError>)
    ensures
        parsed_json(text@) is None ==> r == Err::<Vec<String>, ManifestError>(ManifestError::Parse),
        parsed_json(text@) matches Some(v) ==> answers(r, manifest_values(v)),
{
    match json_parse(text) {
        Err(_) => Err(ManifestError::Parse),
        Ok(v) => weight_map_files(&v),
    }
}

/// `o` is the string `x`.
pub open spec fn names_value(o: Option<String>, x: Seq<char>) -> bool {
    o is Some && o->Some_0@ == x
}

/// The strings among the values of a weight map (`None` for a value that is
/// not a string).
pub open spec fn named_shards(values: Seq<Option<String>>) -> Set<Seq<char>> {
    Set::new(|x: Seq<char>| exists|i: int| 0 <= i < values.len() && #[trigger] names_value(values[i], x))
}

/// The distinct shard names among the values of a weight map, each once;
/// values that are not strings are passed over.
pub fn shards_from_values(values: &Vec<Option<String>>) -> (r: Vec<String>)
    ensures
        views(r@).no_duplicates(),
        forall|x: Seq<char>| views(r@).contains(x) <==> named_shards(values@).contains(x),
{
    let mut names: Vec<String> = Vec::new();
    let mut i: usize = 0;
    while i < values.len()
        invariant
            i <= values@.len(),
            forall|x: Seq<char>|
                views(names@).contains(x) <==> named_shards(values@.subrange(0, i as int)).contains(x),
        decreases values@.len() - i,
    {
        let ghost before = views(names@);
        let ghost prev = values@.subrange(0, i as int);
        let ghost next = values@.subrange(0, i as int + 1);
        match &values[i] {
            Some(name) => {
                names.push(name.clone());
                proof {
                    assert(views(names@) =~= before.push(name@));
                    assert forall|x: Seq<char>|
                        views(names@).contains(x) <==> named_shards(next).contains(x) by {
                        if views(names@).contains(x) {
                            let k = choose|k: int| 0 <= k < views(names@).len() && views(names@)[k] == x;
                            if k < before.len() {
                                assert(before.contains(x));
                                let j = choose|j: int| 0 <= j < prev.len() && #[trigger] names_value(prev[j], x);
                                assert(next[j] == prev[j]);
                            } else {
                                assert(next[i as int] == values@[i as int]);
                                assert(names_value(next[i as int], x));
                            }
                        }
                        if named_shards(next).contains(x) {
                            let j = choose|j: int| 0 <= j < next.len() && #[trigger] names_value(next[j], x);
                            if j < i {
                                assert(prev[j] == next[j]);
                                assert(named_shards(prev).contains(x));
                                assert(before.contains(x));
                                let k = choose|k: int| 0 <= k < before.len() && before[k] == x;
                                assert(views(names@)[k] == x);
                            } else {
                                assert(next[j] == values@[i as int]);
                                assert(views(names@)[before.len() as int] == x);
                            }
                        }
                    }
                }
            },
            None => {
                proof {
                    assert forall|x: Seq<char>|
                        views(names@).contains(x) <==> named_shards(next).contains(x) by {
                        if named_shards(next).contains(x) {
                            let j = choose|j: int| 0 <= j < next.len() && #[trigger] names_value(next[j], x);
                            assert(j < i);
                            assert(prev[j] == next[j]);
                            assert(named_shards(prev).contains(x));
                        }
                        if named_shards(prev).contains(x) {
                            let j = choose|j: int| 0 <= j < prev.len() && #[trigger] names_value(prev[j], x);
                            assert(prev[j] == next[j]);
                        }
                    }
                }
            },
        }
        i = i + 1;
    }
    proof {
        assert(values@.subrange(0, i as int) =~= values@);
    }
    unique_shards(&names)
}

/// The path of each shard file under the directory `dir`.
pub fn shard_paths(dir: &str, files: &Vec<String>) -> (r: Vec<String>)
    ensures
        r@.len() == files@.len(),
        forall|i: int| 0 <= i < r@.len() ==> #[trigger] r@[i]@ == dir@ + "/"@ + files@[i]@,
{
    let mut out: Vec<String> = Vec::new();
    let mut i: usize = 0;
    while i < files.len()
        invariant
            i <= files@.len(),
            out@.len() == i,
            forall|k: int| 0 <= k < i ==> #[trigger] out@[k]@ == dir@ + "/"@ + files@[k]@,
        decreases files@.len() - i,
    {
        let mut p = String::from_str(dir);
        p.append("/");
        p.append(files[i].as_str());
        out.push(p);
        i = i + 1;
    }
    out
}

} // verus!
