use vstd::prelude::*;

use crate::scan::arranged;
use crate::order::{is_arrangement, lemma_arrangement_covers};
use crate::text::{chars_of, concat, string_of, views};

verus! {

/// `a` comes strictly before `b` in the order of `str`'s `Ord` (character by
/// character, a proper prefix first).
pub open spec fn text_less(a: Seq<char>, b: Seq<char>) -> bool
    decreases a.len(),
{
    if a.len() == 0 {
        b.len() > 0
    } else if b.len() == 0 {
        false
    } else if a[0] != b[0] {
        a[0] < b[0]
    } else {
        text_less(a.drop_first(), b.drop_first())
    }
}

proof fn lemma_text_less_irreflexive(a: Seq<char>)
    ensures
        !text_less(a, a),
    decreases a.len(),
{
    if a.len() > 0 {
        lemma_text_less_irreflexive(a.drop_first());
    }
}

proof fn lemma_text_less_total(a: Seq<char>, b: Seq<char>)
    ensures
        a != b ==> text_less(a, b) || text_less(b, a),
    decreases a.len(),
{
    if a.len() > 0 && b.len() > 0 && a[0] == b[0] {
        lemma_text_less_total(a.drop_first(), b.drop_first());
        if a.drop_first() == b.drop_first() {
            assert(a =~= seq![a[0]] + a.drop_first());
            assert(b =~= seq![b[0]] + b.drop_first());
        }
    }
    if a.len() == 0 && b.len() == 0 {
        assert(a =~= b);
    }
}

proof fn lemma_text_less_transitive(a: Seq<char>, b: Seq<char>, c: Seq<char>)
    requires
        text_less(a, b),
        text_less(b, c),
    ensures
        text_less(a, c),
    decreases a.len(),
{
    if a.len() > 0 && b.len() > 0 && c.len() > 0 && a[0] == b[0] && b[0] == c[0] {
        lemma_text_less_transitive(a.drop_first(), b.drop_first(), c.drop_first());
    }
}

fn text_less_exec(a: &Vec<char>, b: &Vec<char>) -> (r: bool)
    ensures
        r == text_less(a@, b@),
{
    let mut i: usize = 0;
    proof {
        assert(a@.skip(0) =~= a@);
        assert(b@.skip(0) =~= b@);
    }
    while i < a.len() && i < b.len() && a[i] == b[i]
        invariant
            i <= a@.len(),
            i <= b@.len(),
            text_less(a@, b@) == text_less(a@.skip(i as int), b@.skip(i as int)),
        decreases a@.len() - i,
    {
        proof {
            assert(a@.skip(i as int).drop_first() =~= a@.skip(i + 1));
            assert(b@.skip(i as int).drop_first() =~= b@.skip(i + 1));
        }
        i = i + 1;
    }
    if i == a.len() {
        i < b.len()
    } else if i == b.len() {
        false
    } else {
        proof {
            assert(a@.skip(i as int)[0] == a@[i as int]);
            assert(b@.skip(i as int)[0] == b@[i as int]);
        }
        a[i] < b[i]
    }
}

/// `s` is in ascending order.
pub open spec fn ascending(s: Seq<Seq<char>>) -> bool {
    forall|i: int, j: int| 0 <= i < j < s.len() ==> !text_less(#[trigger] s[j], #[trigger] s[i])
}

/// Sorts texts into ascending order, as `sort` on a vector of `String`s does.
pub fn sort_texts(items: &Vec<Vec<char>>) -> (r: Vec<Vec<char>>)
    ensures
        ascending(views(r@)),
        exists|ord: Seq<usize>| is_arrangement(ord, items@.len()) && arranged(views(items@), ord, views(r@)),
{
    let ghost iv = views(items@);
    let mut out: Vec<Vec<char>> = Vec::new();
    let ghost mut ord: Seq<usize> = Seq::empty();
    let mut i: usize = 0;
    proof {
        assert(views(out@) =~= Seq::<Seq<char>>::empty());
    }
    while i < items.len()
        invariant
            i <= items@.len(),
            iv == views(items@),
            ascending(views(out@)),
            is_arrangement(ord, i as nat),
            arranged(iv, ord, views(out@)),
        decreases items@.len() - i,
    {
        let x = items[i].clone();
        let mut p: usize = 0;
        while p < out.len() && !text_less_exec(&x, &out[p])
            invariant
                p <= out@.len(),
                x@ == iv[i as int],
                forall|k: int| 0 <= k < p ==> !text_less(x@, #[trigger] views(out@)[k]),
            decreases out@.len() - p,
        {
            proof {
                assert(views(out@)[p as int] == out@[p as int]@);
            }
            p = p + 1;
        }
        let ghost old_out = views(out@);
        let ghost old_ord = ord;
        out.insert(p, x);
        proof {
            ord = old_ord.insert(p as int, i);
            let nv = views(out@);
            assert(nv =~= old_out.insert(p as int, x@));
            if p < old_out.len() {
                assert(text_less(x@, old_out[p as int]));
            }
            assert forall|a: int, b: int| 0 <= a < b < nv.len() implies !text_less(#[trigger] nv[b], #[trigger] nv[a]) by {
                if b < p {
                    assert(nv[a] == old_out[a] && nv[b] == old_out[b]);
                } else if b == p {
                    assert(nv[a] == old_out[a]);
                    assert(!text_less(x@, old_out[a]));
                    lemma_text_less_total(x@, old_out[a]);
                    if text_less(old_out[a], x@) {
                        if text_less(x@, old_out[a]) {
                            lemma_text_less_transitive(x@, old_out[a], x@);
                            lemma_text_less_irreflexive(x@);
                        }
                    }
                } else if a < p {
                    assert(nv[a] == old_out[a] && nv[b] == old_out[b - 1]);
                } else if a == p {
                    assert(nv[b] == old_out[b - 1]);
                    // old_out[p] is strictly larger than x, and old_out[b - 1] is no smaller than old_out[p]
                    if b - 1 > p {
                        assert(!text_less(old_out[b - 1], old_out[p as int]));
                    }
                    if text_less(old_out[b - 1], x@) {
                        if b - 1 == p {
                            lemma_text_less_transitive(x@, old_out[p as int], x@);
                            lemma_text_less_irreflexive(x@);
                        } else {
                            lemma_text_less_total(old_out[b - 1], old_out[p as int]);
                            if old_out[b - 1] == old_out[p as int] {
                                lemma_text_less_transitive(x@, old_out[p as int], x@);
                                lemma_text_less_irreflexive(x@);
                            } else {
                                lemma_text_less_transitive(x@, old_out[p as int], old_out[b - 1]);
                                lemma_text_less_transitive(x@, old_out[b - 1], x@);
                                lemma_text_less_irreflexive(x@);
                            }
                        }
                    }
                } else {
                    assert(nv[a] == old_out[a - 1] && nv[b] == old_out[b - 1]);
                }
            }
            assert forall|a: int, b: int| 0 <= a < b < ord.len() implies ord[a] != ord[b] by {
                if b < p {
                    assert(ord[a] == old_ord[a] && ord[b] == old_ord[b]);
                } else if b == p {
                    assert(ord[a] == old_ord[a]);
                } else if a < p {
                    assert(ord[a] == old_ord[a] && ord[b] == old_ord[b - 1]);
                } else if a == p {
                    assert(ord[b] == old_ord[b - 1]);
                } else {
                    assert(ord[a] == old_ord[a - 1] && ord[b] == old_ord[b - 1]);
                }
            }
            assert forall|k: int| 0 <= k < ord.len() implies #[trigger] ord[k] < i + 1 by {
                if k < p {
                    assert(ord[k] == old_ord[k]);
                } else if k > p {
                    assert(ord[k] == old_ord[k - 1]);
                }
            }
            assert forall|k: int| 0 <= k < ord.len() implies #[trigger] nv[k] == iv[ord[k] as int] by {
                if k < p {
                    assert(ord[k] == old_ord[k] && nv[k] == old_out[k]);
                } else if k > p {
                    assert(ord[k] == old_ord[k - 1] && nv[k] == old_out[k - 1]);
                }
            }
        }
        i = i + 1;
    }
    out
}

/// A folder listing: its subfolders and its files, each list sorted.
#[derive(Debug, PartialEq, Eq)]
pub struct Listing {
    pub dirs: Vec<String>,
    pub files: Vec<String>,
}

/// How a subfolder is shown in a listing.
pub open spec fn dir_line(name: Seq<char>) -> Seq<char> {
    "📁 "@ + name + "/"@
}

/// How a file is shown in a listing.
pub open spec fn file_line(name: Seq<char>) -> Seq<char> {
    "📄 "@ + name
}

/// The lines of the entries of one kind, in the order they were read.
pub open spec fn entry_lines(entries: Seq<(String, bool)>, dirs: bool) -> Seq<Seq<char>>
    decreases entries.len(),
{
    if entries.len() == 0 {
        seq![]
    } else {
        let rest = entry_lines(entries.drop_last(), dirs);
        let (name, is_dir) = entries.last();
        if is_dir && dirs {
            rest.push(dir_line(name@))
        } else if !is_dir && !dirs {
            rest.push(file_line(name@))
        } else {
            rest
        }
    }
}

/// `out` holds the texts of `lines`, sorted.
pub open spec fn sorted_lines(lines: Seq<Seq<char>>, out: Seq<Seq<char>>) -> bool {
    &&& ascending(out)
    &&& exists|ord: Seq<usize>| is_arrangement(ord, lines.len()) && arranged(lines, ord, out)
}

/// The plain values of a list of texts.
pub open spec fn string_views(s: Seq<String>) -> Seq<Seq<char>> {
    s.map_values(|x: String| x@)
}

/// Lists a folder from its entries (name and whether it is a folder): each
/// subfolder shown as `📁 name/` and each file as `📄 name`, each kind sorted.
pub fn list_entries(entries: &Vec<(String, bool)>) -> (r: Listing)
    ensures
        sorted_lines(entry_lines(entries@, true), string_views(r.dirs@)),
        sorted_lines(entry_lines(entries@, false), string_views(r.files@)),
        r.dirs@.len() + r.files@.len() == entries@.len(),
        forall|k: int|
            0 <= k < entries@.len() ==> if (#[trigger] entries@[k]).1 {
                string_views(r.dirs@).contains("📁 "@ + entries@[k].0@ + "/"@)
            } else {
                string_views(r.files@).contains("📄 "@ + entries@[k].0@)
            },
{
    let ghost es = entries@;
    let mut dirs: Vec<Vec<char>> = Vec::new();
    let mut files: Vec<Vec<char>> = Vec::new();
    let dir_mark = chars_of("📁 ");
    let slash = chars_of("/");
    let file_mark = chars_of("📄 ");
    let mut i: usize = 0;
    proof {
        assert(es.take(0) =~= Seq::<(String, bool)>::empty());
        assert(views(dirs@) =~= Seq::<Seq<char>>::empty());
        assert(views(files@) =~= Seq::<Seq<char>>::empty());
    }
    while i < entries.len()
        invariant
            i <= entries@.len(),
            es == entries@,
            dir_mark@ == "📁 "@,
            slash@ == "/"@,
            file_mark@ == "📄 "@,
            views(dirs@) == entry_lines(es.take(i as int), true),
            views(files@) == entry_lines(es.take(i as int), false),
        decreases entries@.len() - i,
    {
        proof {
            assert(es.take(i + 1).drop_last() =~= es.take(i as int));
            assert(es.take(i + 1).last() == es[i as int]);
        }
        let name = chars_of(entries[i].0.as_str());
        if entries[i].1 {
            let line = concat(&concat(&dir_mark, &name), &slash);
            let ghost old_d = views(dirs@);
            dirs.push(line);
            proof {
                assert(views(dirs@) =~= old_d.push(dir_line(es[i as int].0@)));
            }
        } else {
            let line = concat(&file_mark, &name);
            let ghost old_f = views(files@);
            files.push(line);
            proof {
                assert(views(files@) =~= old_f.push(file_line(es[i as int].0@)));
            }
        }
        i = i + 1;
    }
    proof {
        assert(es.take(i as int) =~= es);
    }
    let sd = sort_texts(&dirs);
    let sf = sort_texts(&files);
    let out_d = strings_of(&sd);
    let out_f = strings_of(&sf);
    proof {
        law_listing_shows_every_entry(es, string_views(out_d@), string_views(out_f@));
    }
    Listing { dirs: out_d, files: out_f }
}

fn strings_of(v: &Vec<Vec<char>>) -> (r: Vec<String>)
    ensures
        string_views(r@) == views(v@),
{
    let mut out: Vec<String> = Vec::new();
    let mut i: usize = 0;
    while i < v.len()
        invariant
            i <= v@.len(),
            string_views(out@) == views(v@).take(i as int),
        decreases v@.len() - i,
    {
        let ghost old_out = out@;
        out.push(string_of(&v[i]));
        proof {
            assert(string_views(out@) =~= string_views(old_out).push(v@[i as int]@));
            assert(views(v@).take(i + 1) =~= views(v@).take(i as int).push(views(v@)[i as int]));
        }
        i = i + 1;
    }
    proof {
        assert(views(v@).take(i as int) =~= views(v@));
    }
    out
}

proof fn lemma_entry_lines(entries: Seq<(String, bool)>)
    ensures
        entry_lines(entries, true).len() + entry_lines(entries, false).len() == entries.len(),
        forall|k: int|
            0 <= k < entries.len() ==> if (#[trigger] entries[k]).1 {
                entry_lines(entries, true).contains(dir_line(entries[k].0@))
            } else {
                entry_lines(entries, false).contains(file_line(entries[k].0@))
            },
    decreases entries.len(),
{
    if entries.len() > 0 {
        let d = entries.drop_last();
        lemma_entry_lines(d);
        let dt = entry_lines(d, true);
        let df = entry_lines(d, false);
        let t = entry_lines(entries, true);
        let f = entry_lines(entries, false);
        let (name, is_dir) = entries.last();
        if is_dir {
            assert(t == dt.push(dir_line(name@)));
            assert(f == df);
        } else {
            assert(t == dt);
            assert(f == df.push(file_line(name@)));
        }
        assert forall|k: int| 0 <= k < entries.len() implies if (#[trigger] entries[k]).1 {
            t.contains(dir_line(entries[k].0@))
        } else {
            f.contains(file_line(entries[k].0@))
        } by {
            if k == entries.len() - 1 {
                if is_dir {
                    assert(t[dt.len() as int] == dir_line(name@));
                } else {
                    assert(f[df.len() as int] == file_line(name@));
                }
            } else {
                assert(d[k] == entries[k]);
                if entries[k].1 {
                    let q = choose|q: int| 0 <= q < dt.len() && dt[q] == dir_line(entries[k].0@);
                    assert(t[q] == dt[q]);
                } else {
                    let q = choose|q: int| 0 <= q < df.len() && df[q] == file_line(entries[k].0@);
                    assert(f[q] == df[q]);
                }
            }
        }
    }
}

proof fn lemma_sorted_keeps(lines: Seq<Seq<char>>, out: Seq<Seq<char>>, x: Seq<char>)
    requires
        sorted_lines(lines, out),
        lines.contains(x),
    ensures
        out.contains(x),
{
    let ord = choose|ord: Seq<usize>| is_arrangement(ord, lines.len()) && arranged(lines, ord, out);
    let q = choose|q: int| 0 <= q < lines.len() && lines[q] == x;
    lemma_arrangement_covers(ord, lines.len(), q);
    let p = choose|p: int| 0 <= p < ord.len() && ord[p] as int == q;
    assert(out[p] == x);
}

/// A listing shows every entry once, whatever its name: the subfolders and the
/// files together are as many as the entries, each folder stands among the
/// subfolders as `📁 name/` and each file among the files as `📄 name`.
pub proof fn law_listing_shows_every_entry(
    entries: Seq<(String, bool)>,
    dirs: Seq<Seq<char>>,
    files: Seq<Seq<char>>,
)
    requires
        sorted_lines(entry_lines(entries, true), dirs),
        sorted_lines(entry_lines(entries, false), files),
    ensures
        dirs.len() + files.len() == entries.len(),
        forall|k: int|
            0 <= k < entries.len() ==> if (#[trigger] entries[k]).1 {
                dirs.contains("📁 "@ + entries[k].0@ + "/"@)
            } else {
                files.contains("📄 "@ + entries[k].0@)
            },
{
    lemma_entry_lines(entries);
    let od = choose|ord: Seq<usize>| is_arrangement(ord, entry_lines(entries, true).len()) && arranged(
        entry_lines(entries, true),
        ord,
        dirs,
    );
    let of = choose|ord: Seq<usize>| is_arrangement(ord, entry_lines(entries, false).len()) && arranged(
        entry_lines(entries, false),
        ord,
        files,
    );
    assert(dirs.len() == od.len());
    assert(files.len() == of.len());
    assert forall|k: int| 0 <= k < entries.len() implies if (#[trigger] entries[k]).1 {
        dirs.contains("📁 "@ + entries[k].0@ + "/"@)
    } else {
        files.contains("📄 "@ + entries[k].0@)
    } by {
        if entries[k].1 {
            lemma_sorted_keeps(entry_lines(entries, true), dirs, dir_line(entries[k].0@));
        } else {
            lemma_sorted_keeps(entry_lines(entries, false), files, file_line(entries[k].0@));
        }
    }
}

} // verus!
