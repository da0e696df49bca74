use vstd::prelude::*;

use crate::text::{
    chars_of, concat, contains, contains_exec, ends_with, ends_with_exec, is_piece,
    is_piece_exec, has_char, piece_at, lines, lines_of, replace_char, replace_char_exec, starts_with,
    starts_with_exec, string_of, trim, trim_end_char, trim_end_char_exec, trim_vec, views,
};

verus! {

/// The name of the directory that git keeps its data in.
pub open spec fn git_dir_name() -> Seq<char> {
    seq!['.', 'g', 'i', 't']
}

/// The name of the local configuration file.
pub open spec fn config_file_name() -> Seq<char> {
    seq!['c', 'o', 'n', 'f', 'i', 'g', '.', 't', 'o', 'm', 'l']
}

/// The name of the file that records which remote repository a folder is linked to.
pub open spec fn repo_meta_file_name() -> Seq<char> {
    seq!['.', 'g', 'h', '-', 'r', 'e', 'p', 'o', '.', 'j', 's', 'o', 'n']
}

/// A path with every backslash turned into a forward slash.
pub open spec fn normalize(path: Seq<char>) -> Seq<char> {
    replace_char(path, '\\', '/')
}

/// A pattern as it is compared: backslashes turned into slashes, trailing slashes dropped.
pub open spec fn clean_pattern(pattern: Seq<char>) -> Seq<char> {
    trim_end_char(normalize(pattern), '/')
}

/// A path that names the git directory, the configuration file or the link file
/// as one of its components is never pushed.
pub open spec fn is_reserved(normalized: Seq<char>) -> bool {
    ||| is_piece(normalized, git_dir_name(), '/')
    ||| is_piece(normalized, config_file_name(), '/')
    ||| is_piece(normalized, repo_meta_file_name(), '/')
}

/// When one cleaned pattern `pc` excludes the normalized path `n`. A pattern
/// `*.<ext>` excludes the paths that end with `.<ext>` (the dot included), as
/// an ignore file means it.
pub open spec fn pattern_hits(n: Seq<char>, pc: Seq<char>) -> bool {
    ||| (starts_with(pc, seq!['*', '.']) && ends_with(n, pc.skip(1)))
    ||| is_piece(n, pc, '/')
    ||| starts_with(n, pc)
    ||| contains(n, seq!['/'] + pc + seq!['/'])
    ||| ends_with(n, seq!['/'] + pc)
}

/// The patterns as plain values.
pub open spec fn pattern_views(patterns: Seq<String>) -> Seq<Seq<char>> {
    patterns.map_values(|p: String| p@)
}

/// When a relative path is left out of a push, given the ignore patterns.
pub open spec fn ignored(path: Seq<char>, patterns: Seq<Seq<char>>) -> bool {
    let n = normalize(path);
    ||| is_reserved(n)
    ||| exists|k: int| 0 <= k < patterns.len() && pattern_hits(n, clean_pattern(#[trigger] patterns[k]))
}

fn pattern_hits_exec(n: &Vec<char>, pattern: &Vec<char>) -> (r: bool)
    ensures
        r == pattern_hits(n@, clean_pattern(pattern@)),
{
    let norm = replace_char_exec(pattern, '\\', '/');
    let pc = trim_end_char_exec(&norm, '/');
    let star_dot = vec!['*', '.'];
    if starts_with_exec(&pc, &star_dot) {
        let mut ext: Vec<char> = Vec::new();
        let mut i: usize = 1;
        while i < pc.len()
            invariant
                1 <= i <= pc@.len(),
                pc@.len() >= 2,
                ext@ == pc@.subrange(1, i as int),
            decreases pc@.len() - i,
        {
            ext.push(pc[i]);
            i = i + 1;
        }
        proof {
            assert(ext@ =~= pc@.skip(1));
        }
        if ends_with_exec(n, &ext) {
            return true;
        }
    }
    if is_piece_exec(n, &pc, '/') || starts_with_exec(n, &pc) {
        return true;
    }
    let slash = vec!['/'];
    let slash_pc = concat(&slash, &pc);
    let wrapped = concat(&slash_pc, &slash);
    proof {
        assert(slash@ =~= seq!['/']);
    }
    contains_exec(n, &wrapped) || ends_with_exec(n, &slash_pc)
}

/// Whether a path, relative to the project folder, is left out of a push: when
/// one of its `/`-separated components (after backslashes become slashes) is
/// `.git`, `config.toml` or `.gh-repo.json`, or when one of the ignore patterns
/// matches it.
pub fn should_ignore(relative_path: &str, patterns: &[String]) -> (r: bool)
    ensures
        r == ignored(relative_path@, pattern_views(patterns@)),
{
    let raw = chars_of(relative_path);
    let n = replace_char_exec(&raw, '\\', '/');
    let git = vec!['.', 'g', 'i', 't'];
    let cfg = vec!['c', 'o', 'n', 'f', 'i', 'g', '.', 't', 'o', 'm', 'l'];
    let meta = vec!['.', 'g', 'h', '-', 'r', 'e', 'p', 'o', '.', 'j', 's', 'o', 'n'];
    proof {
        assert(git@ =~= git_dir_name());
        assert(cfg@ =~= config_file_name());
        assert(meta@ =~= repo_meta_file_name());
    }
    if is_piece_exec(&n, &git, '/') || is_piece_exec(&n, &cfg, '/') || is_piece_exec(
        &n,
        &meta,
        '/',
    ) {
        return true;
    }
    let ghost pv = pattern_views(patterns@);
    let mut k: usize = 0;
    while k < patterns.len()
        invariant
            k <= patterns@.len(),
            pv == pattern_views(patterns@),
            n@ == normalize(relative_path@),
            forall|j: int| 0 <= j < k ==> !pattern_hits(n@, clean_pattern(#[trigger] pv[j])),
        decreases patterns@.len() - k,
    {
        let p = chars_of(patterns[k].as_str());
        if pattern_hits_exec(&n, &p) {
            proof {
                assert(pv[k as int] == p@);
            }
            return true;
        }
        k = k + 1;
    }
    false
}

/// What the walk of a push does with one entry.
#[derive(Debug, PartialEq, Eq)]
pub enum EntryAction {
    /// Leave the entry out and go on.
    Skip,
    /// Leave the entry out, and do not descend into it.
    SkipDir,
    /// Send the entry.
    Include,
}

/// Decides what a push does with a walked entry, given its path relative to the
/// project folder: the folder itself (empty path) is passed over; an ignored
/// directory is passed over with all its contents; an ignored file is passed
/// over; anything else is sent.
pub fn classify_entry(relative_path: &str, patterns: &[String], is_dir: bool) -> (r: EntryAction)
    ensures
        relative_path@.len() == 0 ==> r is Skip,
        relative_path@.len() > 0 && ignored(relative_path@, pattern_views(patterns@)) ==> (if is_dir {
            r is SkipDir
        } else {
            r is Skip
        }),
        relative_path@.len() > 0 && !ignored(relative_path@, pattern_views(patterns@)) ==> r is Include,
{
    if relative_path.unicode_len() == 0 {
        EntryAction::Skip
    } else if should_ignore(relative_path, patterns) {
        if is_dir {
            EntryAction::SkipDir
        } else {
            EntryAction::Skip
        }
    } else {
        EntryAction::Include
    }
}

/// A trimmed line of an ignore file is a pattern when it is not empty and not a comment.
pub open spec fn is_pattern_line(t: Seq<char>) -> bool {
    t.len() > 0 && t[0] != '#'
}

/// The patterns of an ignore file with the given lines, in order.
pub open spec fn patterns_of_lines(ls: Seq<Seq<char>>) -> Seq<Seq<char>>
    decreases ls.len(),
{
    if ls.len() == 0 {
        seq![]
    } else {
        let t = trim(ls.last());
        let rest = patterns_of_lines(ls.drop_last());
        if is_pattern_line(t) {
            rest.push(t)
        } else {
            rest
        }
    }
}

/// The patterns that a `.gitignore` file's text holds: each line trimmed, with
/// empty lines and comment lines (starting with `#`) left out.
pub open spec fn gitignore_patterns(content: Seq<char>) -> Seq<Seq<char>> {
    patterns_of_lines(lines(content))
}

/// Reads the patterns out of the text of a `.gitignore` file.
pub fn parse_gitignore(content: &str) -> (r: Vec<String>)
    ensures
        pattern_views(r@) == gitignore_patterns(content@),
{
    let text = chars_of(content);
    let ls = lines_of(&text);
    let ghost lv = views(ls@);
    let mut out: Vec<String> = Vec::new();
    let mut i: usize = 0;
    proof {
        assert(lv.take(0) =~= Seq::<Seq<char>>::empty());
        assert(pattern_views(out@) =~= Seq::<Seq<char>>::empty());
    }
    while i < ls.len()
        invariant
            i <= ls@.len(),
            lv == views(ls@),
            pattern_views(out@) == patterns_of_lines(lv.take(i as int)),
        decreases ls@.len() - i,
    {
        let t = trim_vec(&ls[i]);
        proof {
            assert(lv.take(i + 1).drop_last() =~= lv.take(i as int));
            assert(lv.take(i + 1).last() == ls@[i as int]@);
        }
        if t.len() > 0 && t[0] != '#' {
            let ghost old_out = out@;
            out.push(string_of(&t));
            proof {
                assert(pattern_views(out@) =~= pattern_views(old_out).push(t@));
            }
        }
        i = i + 1;
    }
    proof {
        assert(lv.take(i as int) =~= lv);
    }
    out
}


/// A path that names `.git`, `config.toml` or `.gh-repo.json` as a component is
/// ignored, whatever the patterns are.
pub proof fn law_reserved_always_ignored(path: Seq<char>, patterns: Seq<Seq<char>>)
    requires
        is_reserved(normalize(path)),
    ensures
        ignored(path, patterns),
{
}

/// With no patterns, exactly the paths with a reserved component are ignored.
pub proof fn law_no_patterns(path: Seq<char>)
    ensures
        ignored(path, Seq::<Seq<char>>::empty()) == is_reserved(normalize(path)),
{
}

/// A path is ignored under two lists of patterns put together exactly when it
/// is ignored under one of them: adding patterns never brings a path back.
pub proof fn law_patterns_union(path: Seq<char>, p: Seq<Seq<char>>, q: Seq<Seq<char>>)
    ensures
        ignored(path, p + q) == (ignored(path, p) || ignored(path, q)),
{
    let n = normalize(path);
    if ignored(path, p) && !is_reserved(n) {
        let k = choose|k: int| 0 <= k < p.len() && pattern_hits(n, clean_pattern(#[trigger] p[k]));
        assert((p + q)[k] == p[k]);
    }
    if ignored(path, q) && !is_reserved(n) {
        let k = choose|k: int| 0 <= k < q.len() && pattern_hits(n, clean_pattern(#[trigger] q[k]));
        assert((p + q)[p.len() + k] == q[k]);
    }
    if ignored(path, p + q) && !is_reserved(n) {
        let k = choose|k: int|
            0 <= k < (p + q).len() && pattern_hits(n, clean_pattern(#[trigger] (p + q)[k]));
        if k < p.len() {
            assert((p + q)[k] == p[k]);
        } else {
            assert((p + q)[k] == q[k - p.len()]);
        }
    }
}

/// A pattern that, once cleaned, is one of the path's components ignores the path.
pub proof fn law_component_pattern(path: Seq<char>, patterns: Seq<Seq<char>>, k: int)
    requires
        0 <= k < patterns.len(),
        is_piece(normalize(path), clean_pattern(patterns[k]), '/'),
    ensures
        ignored(path, patterns),
{
}

/// A pattern `*.<ext>` ignores every path that ends with `.<ext>`.
pub proof fn law_extension_pattern(path: Seq<char>, patterns: Seq<Seq<char>>, k: int, ext: Seq<char>)
    requires
        0 <= k < patterns.len(),
        clean_pattern(patterns[k]) == seq!['*', '.'] + ext,
        ends_with(normalize(path), seq!['.'] + ext),
    ensures
        ignored(path, patterns),
{
    let pc = clean_pattern(patterns[k]);
    assert(pc.subrange(0, 2) =~= seq!['*', '.']);
    assert(pc.skip(1) =~= seq!['.'] + ext);
}

/// Every pattern read from an ignore file is non-empty, trimmed, and not a comment.
pub proof fn law_gitignore_patterns_clean(content: Seq<char>, k: int)
    requires
        0 <= k < gitignore_patterns(content).len(),
    ensures
        is_pattern_line(gitignore_patterns(content)[k]),
        exists|j: int| 0 <= j < lines(content).len() && gitignore_patterns(content)[k] == trim(#[trigger] lines(content)[j]),
{
    lemma_patterns_of_lines(lines(content), k);
}

proof fn lemma_patterns_of_lines(ls: Seq<Seq<char>>, k: int)
    requires
        0 <= k < patterns_of_lines(ls).len(),
    ensures
        is_pattern_line(patterns_of_lines(ls)[k]),
        exists|j: int| 0 <= j < ls.len() && patterns_of_lines(ls)[k] == trim(#[trigger] ls[j]),
    decreases ls.len(),
{
    let rest = patterns_of_lines(ls.drop_last());
    let t = trim(ls.last());
    if k < rest.len() {
        lemma_patterns_of_lines(ls.drop_last(), k);
        let j = choose|j: int| 0 <= j < ls.drop_last().len() && rest[k] == trim(#[trigger] ls.drop_last()[j]);
        assert(ls[j] == ls.drop_last()[j]);
    } else {
        assert(patterns_of_lines(ls)[k] == t);
        assert(ls[ls.len() - 1] == ls.last());
    }
}


proof fn lemma_normalize_idempotent(s: Seq<char>)
    ensures
        normalize(normalize(s)) == normalize(s),
{
    assert(normalize(normalize(s)) =~= normalize(s));
}

proof fn lemma_trim_end_char_prefix(s: Seq<char>, c: char)
    ensures
        trim_end_char(s, c).len() <= s.len(),
        trim_end_char(s, c) == s.take(trim_end_char(s, c).len() as int),
        trim_end_char(trim_end_char(s, c), c) == trim_end_char(s, c),
    decreases s.len(),
{
    if s.len() > 0 && s.last() == c {
        lemma_trim_end_char_prefix(s.drop_last(), c);
        let t = trim_end_char(s.drop_last(), c);
        assert(s.drop_last().take(t.len() as int) =~= s.take(t.len() as int));
    } else {
        assert(s.take(s.len() as int) =~= s);
    }
}

/// Cleaning a pattern twice gives what cleaning it once gives.
proof fn lemma_clean_pattern_idempotent(p: Seq<char>)
    ensures
        clean_pattern(clean_pattern(p)) == clean_pattern(p),
{
    let n = normalize(p);
    let t = trim_end_char(n, '/');
    lemma_trim_end_char_prefix(n, '/');
    lemma_normalize_idempotent(p);
    assert(normalize(t) =~= t) by {
        assert forall|i: int| 0 <= i < t.len() implies normalize(t)[i] == t[i] by {
            assert(t[i] == n[i]);
            assert(n[i] == normalize(n)[i]);
        }
    }
}

/// Whether a path is ignored does not change when its backslashes are written
/// as slashes, nor when each pattern is written with slashes for its
/// backslashes and without its trailing slashes.
pub proof fn law_ignore_normalized_forms(path: Seq<char>, patterns: Seq<Seq<char>>)
    ensures
        ignored(normalize(path), patterns) == ignored(path, patterns),
        ignored(path, patterns.map_values(|p: Seq<char>| clean_pattern(p))) == ignored(path, patterns),
{
    lemma_normalize_idempotent(path);
    let cleaned = patterns.map_values(|p: Seq<char>| clean_pattern(p));
    let n = normalize(path);
    assert forall|k: int| 0 <= k < patterns.len() implies clean_pattern(#[trigger] cleaned[k])
        == clean_pattern(patterns[k]) by {
        lemma_clean_pattern_idempotent(patterns[k]);
    }
    if ignored(path, patterns) && !is_reserved(n) {
        let k = choose|k: int| 0 <= k < patterns.len() && pattern_hits(n, clean_pattern(#[trigger] patterns[k]));
        assert(clean_pattern(cleaned[k]) == clean_pattern(patterns[k]));
    }
    if ignored(path, cleaned) && !is_reserved(n) {
        let k = choose|k: int| 0 <= k < cleaned.len() && pattern_hits(n, clean_pattern(#[trigger] cleaned[k]));
        assert(clean_pattern(cleaned[k]) == clean_pattern(patterns[k]));
    }
}


/// A path with a component `.git`, `config.toml` or `.gh-repo.json` (after
/// backslashes become slashes) is left out of every push, whatever the
/// patterns: the git data, the settings and the link file are never sent.
pub proof fn law_never_pushed_names(path: Seq<char>, patterns: Seq<Seq<char>>)
    requires
        is_piece(normalize(path), seq!['.', 'g', 'i', 't'], '/') || is_piece(
            normalize(path),
            seq!['c', 'o', 'n', 'f', 'i', 'g', '.', 't', 'o', 'm', 'l'],
            '/',
        ) || is_piece(
            normalize(path),
            seq!['.', 'g', 'h', '-', 'r', 'e', 'p', 'o', '.', 'j', 's', 'o', 'n'],
            '/',
        ),
    ensures
        ignored(path, patterns),
{
    assert(git_dir_name() =~= seq!['.', 'g', 'i', 't']);
    assert(config_file_name() =~= seq!['c', 'o', 'n', 'f', 'i', 'g', '.', 't', 'o', 'm', 'l']);
    assert(repo_meta_file_name() =~= seq!['.', 'g', 'h', '-', 'r', 'e', 'p', 'o', '.', 'j', 's', 'o', 'n']);
}

/// The link file itself, at the top of the project folder, is never pushed.
pub proof fn law_link_file_never_pushed(patterns: Seq<Seq<char>>)
    ensures
        ignored(seq!['.', 'g', 'h', '-', 'r', 'e', 'p', 'o', '.', 'j', 's', 'o', 'n'], patterns),
{
    let p = seq!['.', 'g', 'h', '-', 'r', 'e', 'p', 'o', '.', 'j', 's', 'o', 'n'];
    assert(normalize(p) =~= p);
    assert(p.subrange(0, p.len() as int) =~= p);
    assert(piece_at(p, p, '/', 0));
    assert(!has_char(p, '/'));
    law_never_pushed_names(p, patterns);
}

} // verus!
