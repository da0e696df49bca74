use vstd::prelude::*;

use crate::json::{json_error_of, json_object_members, json_object_members_of, json_parse_error, members_view};
use crate::text::text;

verus! {

/// The dependencies that a `package.json` declares: each package with its
/// version requirement, in the order of the JSON object's keys. Lists of pairs
/// rather than maps: a map keyed by text gives the proofs nothing to reason
/// with, and a hash map is walked in a different order on each run.
#[derive(Debug, PartialEq, Eq)]
pub struct DepsData {
    pub dependencies: Vec<(String, String)>,
    pub dev_dependencies: Vec<(String, String)>,
}

/// A section as plain values: each package with its version, or the empty
/// text when the version is not a string.
pub open spec fn section_view(section: Option<Vec<(String, Option<String>)>>) -> Seq<(Seq<char>, Seq<char>)> {
    match section {
        Some(entries) => entries@.map_values(
            |e: (String, Option<String>)|
                (
                    e.0@,
                    match e.1 {
                        Some(v) => v@,
                        None => ""@,
                    },
                ),
        ),
        None => seq![],
    }
}

/// The plain value of a list of packages.
pub open spec fn pairs_view(s: Seq<(String, String)>) -> Seq<(Seq<char>, Seq<char>)> {
    s.map_values(|e: (String, String)| (e.0@, e.1@))
}

fn section(entries: Option<Vec<(String, Option<String>)>>) -> (r: Vec<(String, String)>)
    ensures
        pairs_view(r@) == section_view(entries),
{
    let mut out: Vec<(String, String)> = Vec::new();
    match entries {
        None => {
            proof {
                assert(pairs_view(out@) =~= Seq::<(Seq<char>, Seq<char>)>::empty());
            }
        },
        Some(es) => {
            let ghost target = section_view(Some(es));
            let mut i: usize = 0;
            proof {
                assert(pairs_view(out@) =~= target.take(0));
            }
            while i < es.len()
                invariant
                    i <= es@.len(),
                    target == es@.map_values(
                        |e: (String, Option<String>)|
                            (
                                e.0@,
                                match e.1 {
                                    Some(v) => v@,
                                    None => ""@,
                                },
                            ),
                    ),
                    pairs_view(out@) == target.take(i as int),
                decreases es@.len() - i,
            {
                let version = match &es[i].1 {
                    Some(v) => v.clone(),
                    None => text(""),
                };
                let ghost old_out = out@;
                out.push((es[i].0.clone(), version));
                proof {
                    assert(pairs_view(out@) =~= pairs_view(old_out).push(target[i as int]));
                    assert(target.take(i + 1) =~= target.take(i as int).push(target[i as int]));
                }
                i = i + 1;
            }
            proof {
                assert(target.take(i as int) =~= target);
            }
        },
    }
    out
}

/// The dependencies of a project from the `dependencies` and `devDependencies`
/// sections of its `package.json`, each given when it is an object: a missing
/// section has no packages, and a version that is not a string is shown empty.
pub fn deps_data(
    dependencies: Option<Vec<(String, Option<String>)>>,
    dev_dependencies: Option<Vec<(String, Option<String>)>>,
) -> (r: DepsData)
    ensures
        pairs_view(r.dependencies@) == section_view(dependencies),
        pairs_view(r.dev_dependencies@) == section_view(dev_dependencies),
{
    DepsData { dependencies: section(dependencies), dev_dependencies: section(dev_dependencies) }
}


/// The plain value of a section read from JSON, as `deps_data` takes it.
pub open spec fn members_as_section(m: Option<Seq<(Seq<char>, Option<Seq<char>>)>>) -> Seq<(Seq<char>, Seq<char>)> {
    match m {
        Some(entries) => entries.map_values(
            |e: (Seq<char>, Option<Seq<char>>)|
                (
                    e.0,
                    match e.1 {
                        Some(v) => v,
                        None => ""@,
                    },
                ),
        ),
        None => seq![],
    }
}

proof fn lemma_section_views(entries: Option<Vec<(String, Option<String>)>>, m: Option<Seq<(Seq<char>, Option<Seq<char>>)>>)
    requires
        match m {
            Some(x) => entries matches Some(v) && members_view(v@) == x,
            None => entries is None,
        },
    ensures
        section_view(entries) == members_as_section(m),
{
    match entries {
        Some(v) => {
            let x = m.unwrap();
            assert(section_view(entries) =~= members_as_section(m)) by {
                assert forall|i: int| 0 <= i < v@.len() implies #[trigger] section_view(entries)[i] == members_as_section(m)[i] by {
                    assert(members_view(v@)[i] == x[i]);
                }
            }
        },
        None => {},
    }
}

/// The dependencies that the text of a `package.json` declares: `None` when it
/// is not JSON; otherwise its `dependencies` and `devDependencies` objects.
pub fn deps_from_package_json(content: &str) -> (r: Option<DepsData>)
    ensures
        json_parse_error(content@) is Some ==> r is None,
        json_parse_error(content@) is None ==> (r matches Some(d) && pairs_view(d.dependencies@)
            == members_as_section(json_object_members(content@, "dependencies"@)) && pairs_view(
            d.dev_dependencies@,
        ) == members_as_section(json_object_members(content@, "devDependencies"@))),
{
    match json_error_of(content) {
        Some(_) => None,
        None => {
            let deps = json_object_members_of(content, "dependencies");
            let dev = json_object_members_of(content, "devDependencies");
            proof {
                lemma_section_views(deps, json_object_members(content@, "dependencies"@));
                lemma_section_views(dev, json_object_members(content@, "devDependencies"@));
            }
            Some(deps_data(deps, dev))
        },
    }
}

} // verus!
