use vstd::prelude::*;

use crate::scan::extension;
use crate::text::{
    char_upper, chars_of, concat, join, join2, join3, last_index_of, last_index_of_exec, replace_char,
    replace_char_exec, same_chars, skip_vec, spells, string_of, take_vec, text, text_upper,
    upper_char, upper_text, views, words, words_of,
};

verus! {

/// One node of a repository's file tree as the server sends it: each field is
/// there when the server gave it as a string (or, for the children, as a list).
#[derive(Debug, PartialEq, Eq)]
pub struct TreeNode {
    pub path: Option<String>,
    pub kind: Option<String>,
    pub content: Option<String>,
    pub children: Option<Vec<TreeNode>>,
}

/// A step of writing a pulled tree into the project folder; paths are relative
/// to the folder.
#[derive(Debug, PartialEq, Eq)]
pub enum TreeAction {
    /// Create the directory and any missing parents.
    MakeDir { path: String },
    /// Create the file's parent directories and write the file.
    WriteFile { path: String, content: String },
}

/// A step with its texts as plain values.
pub enum TreeActionView {
    MakeDir { path: Seq<char> },
    WriteFile { path: Seq<char>, content: Seq<char> },
}

impl View for TreeAction {
    type V = TreeActionView;

    open spec fn view(&self) -> TreeActionView {
        match self {
            TreeAction::MakeDir { path } => TreeActionView::MakeDir { path: path@ },
            TreeAction::WriteFile { path, content } => TreeActionView::WriteFile {
                path: path@,
                content: content@,
            },
        }
    }
}

/// The steps for one node, and the error that stops the writing, if any.
pub open spec fn node_plan(n: TreeNode) -> (Seq<TreeActionView>, Option<Seq<char>>)
    decreases n, 0nat,
{
    match n.path {
        None => (seq![], Some("Node path missing"@)),
        Some(p) => match n.kind {
            None => (seq![], Some("Node type missing"@)),
            Some(k) => if k@ == "dir"@ {
                let inner = match n.children {
                    Some(cs) => nodes_plan(cs@),
                    None => (seq![], None),
                };
                (seq![TreeActionView::MakeDir { path: p@ }] + inner.0, inner.1)
            } else if k@ == "file"@ {
                let c = match n.content {
                    Some(c) => c@,
                    None => ""@,
                };
                (seq![TreeActionView::WriteFile { path: p@, content: c }], None)
            } else {
                (seq![], None)
            },
        },
    }
}

/// The steps for a list of nodes, in order, up to the first error.
pub open spec fn nodes_plan(ns: Seq<TreeNode>) -> (Seq<TreeActionView>, Option<Seq<char>>)
    decreases ns, 1nat,
{
    if ns.len() == 0 {
        (seq![], None)
    } else {
        let first = node_plan(ns[0]);
        if first.1 is Some {
            first
        } else {
            let rest = nodes_plan(ns.drop_first());
            (first.0 + rest.0, rest.1)
        }
    }
}


/// The plain value of a list of steps.
pub open spec fn actions_view(a: Seq<TreeAction>) -> Seq<TreeActionView> {
    a.map_values(|x: TreeAction| x@)
}

fn push_action(acts: &mut Vec<TreeAction>, a: TreeAction)
    ensures
        actions_view(final(acts)@) == actions_view(old(acts)@).push(a@),
{
    acts.push(a);
    proof {
        assert(actions_view(acts@) =~= actions_view(old(acts)@).push(a@));
    }
}

fn plan_node(n: &TreeNode, acts: &mut Vec<TreeAction>) -> (err: Option<String>)
    ensures
        actions_view(final(acts)@) == actions_view(old(acts)@) + node_plan(*n).0,
        match node_plan(*n).1 {
            Some(e) => err matches Some(x) && x@ == e,
            None => err is None,
        },
    decreases *n, 0nat,
{
    let ghost start = actions_view(acts@);
    match &n.path {
        None => {
            proof {
                assert(actions_view(acts@) =~= start + node_plan(*n).0);
            }
            Some(text("Node path missing"))
        },
        Some(p) => match &n.kind {
            None => {
                proof {
                    assert(actions_view(acts@) =~= start + node_plan(*n).0);
                }
                Some(text("Node type missing"))
            },
            Some(k) => {
                let kc = crate::text::chars_of(k.as_str());
                if spells(&kc, "dir") {
                    push_action(acts, TreeAction::MakeDir { path: p.clone() });
                    match &n.children {
                        Some(cs) => {
                            let e = plan_nodes(cs, 0, acts);
                            proof {
                                assert(cs@.skip(0) =~= cs@);
                                assert(actions_view(acts@) =~= start + node_plan(*n).0);
                            }
                            e
                        },
                        None => {
                            proof {
                                assert(actions_view(acts@) =~= start + node_plan(*n).0);
                            }
                            None
                        },
                    }
                } else if spells(&kc, "file") {
                    let c = match &n.content {
                        Some(c) => c.clone(),
                        None => text(""),
                    };
                    push_action(acts, TreeAction::WriteFile { path: p.clone(), content: c });
                    proof {
                        assert(actions_view(acts@) =~= start + node_plan(*n).0);
                    }
                    None
                } else {
                    proof {
                        assert(actions_view(acts@) =~= start + node_plan(*n).0);
                    }
                    None
                }
            },
        },
    }
}

fn plan_nodes(ns: &Vec<TreeNode>, from: usize, acts: &mut Vec<TreeAction>) -> (err: Option<String>)
    requires
        from <= ns@.len(),
    ensures
        actions_view(final(acts)@) == actions_view(old(acts)@) + nodes_plan(ns@.skip(from as int)).0,
        match nodes_plan(ns@.skip(from as int)).1 {
            Some(e) => err matches Some(x) && x@ == e,
            None => err is None,
        },
    decreases ns@, 1nat, ns@.len() - from,
{
    let ghost start = actions_view(acts@);
    let ghost rest = ns@.skip(from as int);
    if from == ns.len() {
        proof {
            assert(rest.len() == 0);
            assert(actions_view(acts@) =~= start + nodes_plan(rest).0);
        }
        return None;
    }
    proof {
        assert(rest[0] == ns@[from as int]);
        assert(rest.drop_first() =~= ns@.skip(from + 1));
    }
    let e = plan_node(&ns[from], acts);
    match e {
        Some(x) => {
            Some(x)
        },
        None => {
            let r = plan_nodes(ns, from + 1, acts);
            proof {
                assert(actions_view(acts@) =~= start + nodes_plan(rest).0);
            }
            r
        },
    }
}

/// How a pulled tree is written into the project folder: the steps to take, in
/// order, and the error that ends the pull after them, if any.
#[derive(Debug, PartialEq, Eq)]
pub struct TreePlan {
    pub actions: Vec<TreeAction>,
    pub error: Option<String>,
}

/// Plans the writing of a pulled tree, node by node in order: a node without a
/// path or a type ends the pull with an error; a directory is created and its
/// children follow; a file is written with its content (empty when it has
/// none); a node of any other type is passed over.
pub fn plan_tree(nodes: &Vec<TreeNode>) -> (r: TreePlan)
    ensures
        actions_view(r.actions@) == nodes_plan(nodes@).0,
        match nodes_plan(nodes@).1 {
            Some(e) => r.error matches Some(x) && x@ == e,
            None => r.error is None,
        },
{
    let mut actions: Vec<TreeAction> = Vec::new();
    let error = plan_nodes(nodes, 0, &mut actions);
    proof {
        assert(nodes@.skip(0) =~= nodes@);
        assert(actions_view(Seq::<TreeAction>::empty()) =~= Seq::<TreeActionView>::empty());
    }
    TreePlan { actions, error }
}


/// A word with its first character in upper case.
pub open spec fn capitalized(w: Seq<char>) -> Seq<char> {
    if w.len() == 0 {
        seq![]
    } else {
        char_upper(w[0]) + w.skip(1)
    }
}

/// The title of a wiki page whose file is named `slug` (without `.md`): dashes and
/// underscores become spaces, and the words, each capitalized, are joined with
/// single spaces; `getting-started` becomes `Getting Started`.
pub open spec fn title_of_slug(slug: Seq<char>) -> Seq<char> {
    join(
        words(replace_char(replace_char(slug, '-', ' '), '_', ' ')).map_values(
            |w: Seq<char>| capitalized(w),
        ),
        ' ',
    )
}

fn capitalize(w: &Vec<char>) -> (r: Vec<char>)
    ensures
        r@ == capitalized(w@),
{
    if w.len() == 0 {
        return Vec::new();
    }
    let head = upper_char(w[0]);
    let head_chars = chars_of(head.as_str());
    let tail = skip_vec(w, 1);
    concat(&head_chars, &tail)
}

/// The title of a wiki page from its file name without `.md`.
pub fn title_from_slug(slug: &str) -> (r: String)
    ensures
        r@ == title_of_slug(slug@),
{
    let s = chars_of(slug);
    let a = replace_char_exec(&s, '-', ' ');
    let b = replace_char_exec(&a, '_', ' ');
    let ws = words_of(&b);
    let mut caps: Vec<Vec<char>> = Vec::new();
    let mut i: usize = 0;
    let ghost target = views(ws@).map_values(|w: Seq<char>| capitalized(w));
    while i < ws.len()
        invariant
            i <= ws@.len(),
            target == views(ws@).map_values(|w: Seq<char>| capitalized(w)),
            views(caps@) == target.take(i as int),
        decreases ws@.len() - i,
    {
        let c = capitalize(&ws[i]);
        let ghost old_caps = caps@;
        caps.push(c);
        proof {
            assert(views(caps@) =~= views(old_caps).push(capitalized(ws@[i as int]@)));
            assert(target.take(i + 1) =~= target.take(i as int).push(target[i as int]));
        }
        i = i + 1;
    }
    proof {
        assert(target.take(i as int) =~= target);
        assert(views(caps@).skip(0) =~= views(caps@));
    }
    let joined = crate::text::join_from(&caps, 0, ' ');
    string_of(&joined)
}

/// The title under which a file of the local wiki folder is pushed: only files
/// with the extension `md` are pushed, titled after the rest of their name.
pub open spec fn wiki_title(name: Seq<char>) -> Option<Seq<char>> {
    match extension(name) {
        Some(e) => if e == "md"@ {
            match last_index_of(name, '.') {
                Some(k) => Some(title_of_slug(name.take(k))),
                None => None,
            }
        } else {
            None
        },
        None => None,
    }
}

/// The title for a file of the wiki folder, or `None` when it is not a page.
pub fn wiki_page_title(file_name: &str) -> (r: Option<String>)
    ensures
        match wiki_title(file_name@) {
            Some(t) => r matches Some(x) && x@ == t,
            None => r is None,
        },
{
    match crate::scan::extension_of(file_name) {
        Some(e) => {
            let ec = chars_of(e.as_str());
            if spells(&ec, "md") {
                let n = chars_of(file_name);
                match last_index_of_exec(&n, '.') {
                    Some(k) => {
                        let stem = take_vec(&n, k);
                        Some(title_from_slug(string_of(&stem).as_str()))
                    },
                    None => None,
                }
            } else {
                None
            }
        },
        None => None,
    }
}

/// A secret of a repository as the server lists it.
#[derive(Debug, PartialEq, Eq)]
pub struct SecretListItem {
    pub id: String,
    pub name: String,
    pub created_at: String,
}

/// The name under which a secret is stored: secret names are upper case.
pub fn secret_key(name: &str) -> (r: String)
    ensures
        r@ == text_upper(name@),
{
    upper_text(name)
}

/// The position of the first secret with the given name.
pub open spec fn secret_position(secrets: Seq<SecretListItem>, name: Seq<char>) -> Option<int>
    decreases secrets.len(),
{
    if secrets.len() == 0 {
        None
    } else if secrets[0].name@ == name {
        Some(0)
    } else {
        match secret_position(secrets.drop_first(), name) {
            Some(k) => Some(k + 1),
            None => None,
        }
    }
}

/// The id of the secret to delete: the first listed secret whose name is the
/// upper-case form of `name`, or the message that there is none.
pub fn find_secret_id(secrets: &Vec<SecretListItem>, name: &str) -> (r: Result<String, String>)
    ensures
        match secret_position(secrets@, text_upper(name@)) {
            Some(k) => 0 <= k < secrets@.len() && (r matches Ok(id) && id@ == secrets@[k].id@),
            None => r matches Err(e) && e@ == "Secret '"@ + text_upper(name@)
                + "' not found in this repository."@,
        },
{
    let target = secret_key(name);
    let tc = chars_of(target.as_str());
    let mut i: usize = 0;
    proof {
        assert(secrets@.skip(0) =~= secrets@);
    }
    while i < secrets.len()
        invariant
            i <= secrets@.len(),
            tc@ == text_upper(name@),
            match secret_position(secrets@, tc@) {
                Some(k) => match secret_position(secrets@.skip(i as int), tc@) {
                    Some(j) => k == j + i,
                    None => false,
                },
                None => secret_position(secrets@.skip(i as int), tc@) is None,
            },
        decreases secrets@.len() - i,
    {
        let nc = chars_of(secrets[i].name.as_str());
        proof {
            assert(secrets@.skip(i as int)[0] == secrets@[i as int]);
            assert(secrets@.skip(i as int).drop_first() =~= secrets@.skip(i + 1));
        }
        if same_chars(&nc, &tc) {
            return Ok(secrets[i].id.clone());
        }
        i = i + 1;
    }
    proof {
        assert(secrets@.skip(i as int).len() == 0);
    }
    Err(join3("Secret '", target.as_str(), "' not found in this repository."))
}


/// Pulling two lists of nodes one after the other plans the same as pulling
/// them together: the first list's error, if it has one, ends the pull there;
/// otherwise the second list's steps follow the first's.
pub proof fn law_tree_plan_concatenates(a: Seq<TreeNode>, b: Seq<TreeNode>)
    ensures
        nodes_plan(a).1 is Some ==> nodes_plan(a + b) == nodes_plan(a),
        nodes_plan(a).1 is None ==> nodes_plan(a + b) == (nodes_plan(a).0 + nodes_plan(b).0, nodes_plan(b).1),
    decreases a.len(),
{
    if a.len() == 0 {
        assert(a + b =~= b);
        assert(nodes_plan(a).0 + nodes_plan(b).0 =~= nodes_plan(b).0);
    } else {
        assert((a + b)[0] == a[0]);
        assert((a + b).drop_first() =~= a.drop_first() + b);
        law_tree_plan_concatenates(a.drop_first(), b);
        let first = node_plan(a[0]);
        if first.1 is None {
            let ra = nodes_plan(a.drop_first());
            if ra.1 is None {
                assert(first.0 + (ra.0 + nodes_plan(b).0) =~= (first.0 + ra.0) + nodes_plan(b).0);
            }
        }
    }
}


/// The slugs of the wiki pages that the server listed, in order, up to the
/// first page without one.
pub open spec fn slugs_before_missing(pages: Seq<Option<String>>) -> Seq<Seq<char>>
    decreases pages.len(),
{
    if pages.len() == 0 {
        seq![]
    } else {
        match pages[0] {
            Some(s) => seq![s@] + slugs_before_missing(pages.drop_first()),
            None => seq![],
        }
    }
}

/// Some page of the list has no slug.
pub open spec fn some_slug_missing(pages: Seq<Option<String>>) -> bool {
    exists|i: int| 0 <= i < pages.len() && pages[i] is None
}

/// The pages to pull from the server's list of wiki pages (each page's `slug`
/// when it is a string): an error when the list is no list; otherwise the
/// slugs before the first page without one, and the error that ends the pull
/// after them when there is such a page.
pub fn wiki_page_slugs(pages: Option<Vec<Option<String>>>) -> (r: Result<(Vec<String>, Option<String>), String>)
    ensures
        match pages {
            None => r matches Err(e) && e@ == "Invalid wiki pages format from server."@,
            Some(ps) => r matches Ok((slugs, missing)) && crate::listing::string_views(slugs@)
                == slugs_before_missing(ps@) && (some_slug_missing(ps@) ==> (missing matches Some(
                m,
            ) && m@ == "Missing page slug"@)) && (!some_slug_missing(ps@) ==> missing is None),
        },
{
    match pages {
        None => Err(text("Invalid wiki pages format from server.")),
        Some(ps) => {
            let mut slugs: Vec<String> = Vec::new();
            let mut i: usize = 0;
            proof {
                assert(ps@.skip(0) =~= ps@);
                assert(crate::listing::string_views(slugs@) =~= Seq::<Seq<char>>::empty());
            }
            while i < ps.len()
                invariant
                    pages == Some(ps),
                    i <= ps@.len(),
                    forall|j: int| 0 <= j < i ==> ps@[j] is Some,
                    slugs_before_missing(ps@) == crate::listing::string_views(slugs@)
                        + slugs_before_missing(ps@.skip(i as int)),
                decreases ps@.len() - i,
            {
                proof {
                    assert(ps@.skip(i as int)[0] == ps@[i as int]);
                    assert(ps@.skip(i as int).drop_first() =~= ps@.skip(i + 1));
                }
                match &ps[i] {
                    Some(slug) => {
                        let ghost old_slugs = crate::listing::string_views(slugs@);
                        slugs.push(slug.clone());
                        proof {
                            assert(crate::listing::string_views(slugs@) =~= old_slugs.push(slug@));
                            assert(old_slugs + (seq![slug@] + slugs_before_missing(ps@.skip(i + 1)))
                                =~= old_slugs.push(slug@) + slugs_before_missing(ps@.skip(i + 1)));
                        }
                    },
                    None => {
                        proof {
                            assert(crate::listing::string_views(slugs@) + Seq::<Seq<char>>::empty()
                                =~= crate::listing::string_views(slugs@));
                        }
                        return Ok((slugs, Some(text("Missing page slug"))));
                    },
                }
                i = i + 1;
            }
            proof {
                assert(ps@.skip(i as int).len() == 0);
                assert(crate::listing::string_views(slugs@) + Seq::<Seq<char>>::empty()
                    =~= crate::listing::string_views(slugs@));
            }
            Ok((slugs, None))
        },
    }
}

/// The local file of a pulled wiki page (its name in the `wiki` folder) and its
/// text, when the page's detail request succeeded and gave a text content.
pub fn wiki_page_file(slug: &str, detail_ok: bool, content: Option<String>) -> (r: Option<(String, String)>)
    ensures
        (detail_ok && content is Some) ==> (r matches Some((f, c)) && f@ == slug@ + ".md"@ && c@
            == content->0@),
        !(detail_ok && content is Some) ==> r is None,
{
    if !detail_ok {
        return None;
    }
    match content {
        Some(c) => Some((join2(slug, ".md"), c)),
        None => None,
    }
}

} // verus!
