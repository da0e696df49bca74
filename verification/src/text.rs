use vstd::prelude::*;

verus! {

broadcast use vstd::string::group_string_axioms;

/// The characters of `s`, in order.
pub fn chars_of(s: &str) -> (r: Vec<char>)
    ensures
        r@ == s@,
{
    let mut v: Vec<char> = Vec::new();
    for c in it: s.chars()
        invariant
            v@ == it.seq().take(it.index() as int),
    {
        v.push(c);
    }
    v
}

/// True when `c` has the Unicode `White_Space` property.
pub open spec fn is_ws(c: char) -> bool {
    let u = c as u32;
    ||| (0x9 <= u && u <= 0xd)
    ||| u == 0x20
    ||| u == 0x85
    ||| u == 0xa0
    ||| u == 0x1680
    ||| (0x2000 <= u && u <= 0x200a)
    ||| u == 0x2028
    ||| u == 0x2029
    ||| u == 0x202f
    ||| u == 0x205f
    ||| u == 0x3000
}

/// Whether `c` is whitespace, as `char::is_whitespace` says.
pub fn is_whitespace(c: char) -> (r: bool)
    ensures
        r == is_ws(c),
{
    let u = c as u32;
    (0x9 <= u && u <= 0xd) || u == 0x20 || u == 0x85 || u == 0xa0 || u == 0x1680 || (0x2000
        <= u && u <= 0x200a) || u == 0x2028 || u == 0x2029 || u == 0x202f || u == 0x205f || u
        == 0x3000
}


/// Builds a `String` from a sequence of characters (std's `FromIterator<&char>`
/// for `String`). Trusted: the result holds exactly the given characters, in order.
#[verifier::external_body]
pub(crate) fn string_of(v: &Vec<char>) -> (r: String)
    ensures
        r@ == v@,
{
    v.iter().collect::<String>()
}

/// Index of the first element of `s` that satisfies `p`, or `s.len()` if none does.
pub open spec fn first_where(s: Seq<char>, p: spec_fn(char) -> bool) -> nat
    decreases s.len(),
{
    if s.len() == 0 {
        0
    } else if p(s[0]) {
        0
    } else {
        1 + first_where(s.drop_first(), p)
    }
}

/// `first_where` is `k` when `k` is the first position whose character satisfies `p`.
pub proof fn lemma_first_where(s: Seq<char>, p: spec_fn(char) -> bool, k: int)
    requires
        0 <= k <= s.len(),
        k < s.len() ==> p(s[k]),
        forall|j: int| 0 <= j < k ==> !p(#[trigger] s[j]),
    ensures
        first_where(s, p) == k,
    decreases k,
{
    if k > 0 {
        assert forall|j: int| 0 <= j < k - 1 implies !p(#[trigger] s.drop_first()[j]) by {
            assert(s.drop_first()[j] == s[j + 1]);
        }
        lemma_first_where(s.drop_first(), p, k - 1);
    }
}

/// The test for the character `c`.
pub open spec fn is_char(c: char) -> spec_fn(char) -> bool {
    |x: char| x == c
}

/// Removes one trailing carriage return, if there is one.
pub open spec fn strip_cr(s: Seq<char>) -> Seq<char> {
    if s.len() > 0 && s.last() == '\r' {
        s.drop_last()
    } else {
        s
    }
}

/// The lines of a text as `str::lines` yields them: split at each `'\n'`,
/// the final line ending optional, and a `"\r\n"` ending counted as one.
pub open spec fn lines(s: Seq<char>) -> Seq<Seq<char>>
    decreases s.len(),
{
    if s.len() == 0 {
        seq![]
    } else {
        let k = first_where(s, is_char('\n'));
        if k >= s.len() {
            seq![s]
        } else {
            seq![strip_cr(s.take(k as int))].add(lines(s.skip(k + 1 as int)))
        }
    }
}

fn strip_cr_vec(v: Vec<char>) -> (r: Vec<char>)
    ensures
        r@ == strip_cr(v@),
{
    let mut v = v;
    if v.len() > 0 && v[v.len() - 1] == '\r' {
        v.pop();
    }
    v
}

/// Nested sequences as plain values.
pub open spec fn views(v: Seq<Vec<char>>) -> Seq<Seq<char>> {
    v.map_values(|x: Vec<char>| x@)
}

/// The lines of `s`, as `str::lines` gives them.
pub fn lines_of(s: &Vec<char>) -> (r: Vec<Vec<char>>)
    ensures
        views(r@) == lines(s@),
{
    let n = s.len();
    let mut out: Vec<Vec<char>> = Vec::new();
    let mut cur: Vec<char> = Vec::new();
    let mut start: usize = 0;
    let mut i: usize = 0;
    proof {
        assert(s@.skip(0) =~= s@);
        assert(views(out@) =~= Seq::<Seq<char>>::empty());
    }
    while i < n
        invariant
            n == s@.len(),
            start <= i <= n,
            cur@ == s@.subrange(start as int, i as int),
            forall|j: int| start <= j < i ==> s@[j] != '\n',
            lines(s@) == views(out@) + lines(s@.skip(start as int)),
        decreases n - i,
    {
        if s[i] == '\n' {
            proof {
                let t = s@.skip(start as int);
                lemma_first_where(t, is_char('\n'), (i - start) as int);
                assert(t.take((i - start) as int) =~= cur@);
                assert(t.skip((i - start) + 1) =~= s@.skip(i + 1));
            }
            let line = strip_cr_vec(cur);
            let ghost old_out = out@;
            out.push(line);
            proof {
                assert(views(out@) =~= views(old_out).push(line@));
            }
            cur = Vec::new();
            start = i + 1;
        } else {
            cur.push(s[i]);
        }
        i = i + 1;
    }
    if start < n {
        proof {
            let t = s@.skip(start as int);
            lemma_first_where(t, is_char('\n'), t.len() as int);
            assert(t =~= cur@);
        }
        let ghost old_out = out@;
        out.push(cur);
        proof {
            assert(views(out@) =~= views(old_out).push(s@.skip(start as int)));
        }
    } else {
        proof {
            assert(s@.skip(start as int).len() == 0);
            assert(views(out@) + lines(s@.skip(start as int)) =~= views(out@));
        }
    }
    out
}


/// The test for whitespace.
pub open spec fn ws_fn() -> spec_fn(char) -> bool {
    |c: char| is_ws(c)
}

/// The test for anything but whitespace.
pub open spec fn non_ws_fn() -> spec_fn(char) -> bool {
    |c: char| !is_ws(c)
}

/// The maximal runs of non-whitespace characters, as `str::split_whitespace` yields them.
pub open spec fn words(s: Seq<char>) -> Seq<Seq<char>>
    decreases s.len(),
{
    if s.len() == 0 {
        seq![]
    } else if is_ws(s[0]) {
        words(s.drop_first())
    } else {
        let k = first_where(s, ws_fn());
        if 0 < k <= s.len() {
            seq![s.take(k as int)].add(words(s.skip(k as int)))
        } else {
            seq![s]
        }
    }
}

proof fn lemma_words_ws_prefix(s: Seq<char>, i: int)
    requires
        0 <= i < s.len(),
        is_ws(s[i]),
    ensures
        words(s.skip(i)) == words(s.skip(i + 1)),
{
    assert(s.skip(i).drop_first() =~= s.skip(i + 1));
}

/// The whitespace-separated words of `s`.
pub fn words_of(s: &Vec<char>) -> (r: Vec<Vec<char>>)
    ensures
        views(r@) == words(s@),
{
    let n = s.len();
    let mut out: Vec<Vec<char>> = Vec::new();
    let mut i: usize = 0;
    proof {
        assert(s@.skip(0) =~= s@);
        assert(views(out@) =~= Seq::<Seq<char>>::empty());
    }
    while i < n
        invariant
            n == s@.len(),
            i <= n,
            words(s@) == views(out@) + words(s@.skip(i as int)),
        decreases n - i,
    {
        if is_whitespace(s[i]) {
            proof {
                lemma_words_ws_prefix(s@, i as int);
            }
            i = i + 1;
        } else {
            let start = i;
            let mut w: Vec<char> = Vec::new();
            while i < n && !is_whitespace(s[i])
                invariant
                    n == s@.len(),
                    start <= i <= n,
                    w@ == s@.subrange(start as int, i as int),
                    forall|j: int| start <= j < i ==> !is_ws(#[trigger] s@[j]),
                decreases n - i,
            {
                w.push(s[i]);
                i = i + 1;
            }
            proof {
                let t = s@.skip(start as int);
                assert forall|j: int| 0 <= j < (i - start) implies !ws_fn()(#[trigger] t[j]) by {
                    assert(t[j] == s@[start + j]);
                }
                lemma_first_where(t, ws_fn(), (i - start) as int);
                assert(t.take((i - start) as int) =~= w@);
                assert(t.skip((i - start) as int) =~= s@.skip(i as int));
                assert(!is_ws(t[0]));
            }
            let ghost old_out = out@;
            out.push(w);
            proof {
                assert(views(out@) =~= views(old_out).push(s@.subrange(start as int, i as int)));
            }
        }
    }
    proof {
        assert(s@.skip(i as int).len() == 0);
        assert(views(out@) + words(s@.skip(i as int)) =~= views(out@));
    }
    out
}

/// `s` without trailing whitespace.
pub open spec fn trim_end(s: Seq<char>) -> Seq<char>
    decreases s.len(),
{
    if s.len() > 0 && is_ws(s.last()) {
        trim_end(s.drop_last())
    } else {
        s
    }
}

/// `s` without leading whitespace.
pub open spec fn trim_start(s: Seq<char>) -> Seq<char> {
    s.skip(first_where(s, non_ws_fn()) as int)
}

/// `s` without leading or trailing whitespace, as `str::trim` gives it.
pub open spec fn trim(s: Seq<char>) -> Seq<char> {
    trim_end(trim_start(s))
}

fn trim_end_vec(v: Vec<char>) -> (r: Vec<char>)
    ensures
        r@ == trim_end(v@),
{
    let ghost orig = v@;
    let mut v = v;
    while v.len() > 0 && is_whitespace(v[v.len() - 1])
        invariant
            trim_end(v@) == trim_end(orig),
        decreases v.len(),
    {
        v.pop();
    }
    v
}

/// `s` with the surrounding whitespace removed.
pub fn trim_vec(s: &Vec<char>) -> (r: Vec<char>)
    ensures
        r@ == trim(s@),
{
    let n = s.len();
    let mut i: usize = 0;
    while i < n && is_whitespace(s[i])
        invariant
            n == s@.len(),
            i <= n,
            forall|j: int| 0 <= j < i ==> is_ws(#[trigger] s@[j]),
        decreases n - i,
    {
        i = i + 1;
    }
    proof {
        lemma_first_where(s@, non_ws_fn(), i as int);
    }
    let mut t: Vec<char> = Vec::new();
    let mut k: usize = i;
    while k < n
        invariant
            n == s@.len(),
            i <= k <= n,
            t@ == s@.subrange(i as int, k as int),
        decreases n - k,
    {
        t.push(s[k]);
        k = k + 1;
    }
    proof {
        assert(t@ =~= trim_start(s@));
    }
    trim_end_vec(t)
}


/// `w` occurs in `s` at position `i`.
pub open spec fn occurs_at(s: Seq<char>, w: Seq<char>, i: int) -> bool {
    0 <= i && i + w.len() <= s.len() && s.subrange(i, i + w.len()) == w
}

/// `s` begins with `w`.
pub open spec fn starts_with(s: Seq<char>, w: Seq<char>) -> bool {
    occurs_at(s, w, 0)
}

/// `s` ends with `w`.
pub open spec fn ends_with(s: Seq<char>, w: Seq<char>) -> bool {
    w.len() <= s.len() && occurs_at(s, w, s.len() - w.len())
}

/// `w` occurs somewhere in `s`.
pub open spec fn contains(s: Seq<char>, w: Seq<char>) -> bool {
    exists|i: int| #[trigger] occurs_at(s, w, i)
}

/// Whether `w` occurs in `s` at position `i`.
pub fn occurs_at_exec(s: &Vec<char>, w: &Vec<char>, i: usize) -> (r: bool)
    ensures
        r == occurs_at(s@, w@, i as int),
{
    if w.len() > s.len() || i > s.len() - w.len() {
        return false;
    }
    let mut k: usize = 0;
    while k < w.len()
        invariant
            i + w.len() <= s.len(),
            k <= w@.len(),
            forall|j: int| 0 <= j < k ==> s@[i + j] == w@[j],
        decreases w@.len() - k,
    {
        if s[i + k] != w[k] {
            proof {
                assert(s@.subrange(i as int, i + w@.len())[k as int] != w@[k as int]);
            }
            return false;
        }
        k = k + 1;
    }
    proof {
        assert(s@.subrange(i as int, i + w@.len()) =~= w@);
    }
    true
}

/// Whether `s` begins with `w`.
pub fn starts_with_exec(s: &Vec<char>, w: &Vec<char>) -> (r: bool)
    ensures
        r == starts_with(s@, w@),
{
    occurs_at_exec(s, w, 0)
}

/// Whether `s` ends with `w`.
pub fn ends_with_exec(s: &Vec<char>, w: &Vec<char>) -> (r: bool)
    ensures
        r == ends_with(s@, w@),
{
    if w.len() > s.len() {
        false
    } else {
        occurs_at_exec(s, w, s.len() - w.len())
    }
}

/// Whether `w` occurs somewhere in `s`.
pub fn contains_exec(s: &Vec<char>, w: &Vec<char>) -> (r: bool)
    ensures
        r == contains(s@, w@),
{
    if w.len() > s.len() {
        proof {
            assert forall|i: int| !occurs_at(s@, w@, i) by {}
        }
        return false;
    }
    let last = s.len() - w.len();
    let mut i: usize = 0;
    loop
        invariant
            last == s@.len() - w@.len(),
            i <= last,
            forall|j: int| 0 <= j < i ==> !occurs_at(s@, w@, j),
        ensures
            forall|j: int| 0 <= j <= last ==> !occurs_at(s@, w@, j),
        decreases last - i,
    {
        if occurs_at_exec(s, w, i) {
            return true;
        }
        if i == last {
            break;
        }
        i = i + 1;
    }
    proof {
        assert forall|j: int| !occurs_at(s@, w@, j) by {
            if 0 <= j <= last {
            }
        }
    }
    false
}

/// `c` occurs in `s`.
pub open spec fn has_char(s: Seq<char>, c: char) -> bool {
    exists|i: int| 0 <= i < s.len() && s[i] == c
}

/// `w` is one of the `sep`-separated pieces of `s`: it holds no `sep`, and it
/// stands in `s` between two separators or the ends of `s`.
pub open spec fn is_piece(s: Seq<char>, w: Seq<char>, sep: char) -> bool {
    !has_char(w, sep) && exists|i: int| #[trigger] piece_at(s, w, sep, i)
}

/// `w` stands in `s` at position `i` between two separators or the ends of `s`.
pub open spec fn piece_at(s: Seq<char>, w: Seq<char>, sep: char, i: int) -> bool {
    &&& occurs_at(s, w, i)
    &&& (i == 0 || s[i - 1] == sep)
    &&& (i + w.len() == s.len() || s[i + w.len()] == sep)
}

/// Whether `c` occurs in `s`.
pub fn has_char_exec(s: &Vec<char>, c: char) -> (r: bool)
    ensures
        r == has_char(s@, c),
{
    let mut i: usize = 0;
    while i < s.len()
        invariant
            i <= s@.len(),
            forall|j: int| 0 <= j < i ==> s@[j] != c,
        decreases s@.len() - i,
    {
        if s[i] == c {
            return true;
        }
        i = i + 1;
    }
    false
}

/// Whether `w` is one of the `sep`-separated pieces of `s`.
pub fn is_piece_exec(s: &Vec<char>, w: &Vec<char>, sep: char) -> (r: bool)
    ensures
        r == is_piece(s@, w@, sep),
{
    if has_char_exec(w, sep) || w.len() > s.len() {
        return false;
    }
    let last = s.len() - w.len();
    let mut i: usize = 0;
    loop
        invariant
            last == s.len() - w.len(),
            !has_char(w@, sep),
            i <= last,
            forall|j: int| 0 <= j < i ==> !piece_at(s@, w@, sep, j),
        ensures
            forall|j: int| 0 <= j <= last ==> !piece_at(s@, w@, sep, j),
        decreases last - i,
    {
        if occurs_at_exec(s, w, i) && (i == 0 || s[i - 1] == sep) && (i + w.len() == s.len()
            || s[i + w.len()] == sep) {
            assert(piece_at(s@, w@, sep, i as int));
            return true;
        }
        if i == last {
            break;
        }
        i = i + 1;
    }
    proof {
        assert forall|j: int| !piece_at(s@, w@, sep, j) by {
            if 0 <= j <= last {
            }
        }
    }
    false
}

/// Every `from` replaced by `to`.
pub open spec fn replace_char(s: Seq<char>, from: char, to: char) -> Seq<char> {
    s.map_values(|c: char| if c == from { to } else { c })
}

/// `s` with every `from` replaced by `to`.
pub fn replace_char_exec(s: &Vec<char>, from: char, to: char) -> (r: Vec<char>)
    ensures
        r@ == replace_char(s@, from, to),
{
    let mut out: Vec<char> = Vec::new();
    let mut i: usize = 0;
    while i < s.len()
        invariant
            i <= s@.len(),
            out@ == replace_char(s@.take(i as int), from, to),
        decreases s@.len() - i,
    {
        let c = if s[i] == from {
            to
        } else {
            s[i]
        };
        out.push(c);
        i = i + 1;
        proof {
            assert(replace_char(s@.take(i as int), from, to) =~= out@);
        }
    }
    proof {
        assert(s@.take(i as int) =~= s@);
    }
    out
}

/// `s` with every trailing `c` removed, as `str::trim_end_matches(c)` gives it.
pub open spec fn trim_end_char(s: Seq<char>, c: char) -> Seq<char>
    decreases s.len(),
{
    if s.len() > 0 && s.last() == c {
        trim_end_char(s.drop_last(), c)
    } else {
        s
    }
}

/// `v` with every trailing `c` removed.
pub fn trim_end_char_exec(v: &Vec<char>, c: char) -> (r: Vec<char>)
    ensures
        r@ == trim_end_char(v@, c),
{
    let mut t = v.clone();
    proof {
        assert(t@ =~= v@);
    }
    while t.len() > 0 && t[t.len() - 1] == c
        invariant
            trim_end_char(t@, c) == trim_end_char(v@, c),
        decreases t.len(),
    {
        t.pop();
    }
    t
}

/// The concatenation of two character vectors.
pub fn concat(a: &Vec<char>, b: &Vec<char>) -> (r: Vec<char>)
    ensures
        r@ == a@ + b@,
{
    let mut out = a.clone();
    let mut i: usize = 0;
    proof {
        assert(out@ =~= a@ + b@.take(0));
    }
    while i < b.len()
        invariant
            i <= b@.len(),
            out@ == a@ + b@.take(i as int),
        decreases b@.len() - i,
    {
        out.push(b[i]);
        i = i + 1;
        proof {
            assert(out@ =~= a@ + b@.take(i as int));
        }
    }
    proof {
        assert(b@.take(i as int) =~= b@);
    }
    out
}

/// The characters from `start` (inclusive) to `end` (exclusive).
pub fn slice_vec(s: &Vec<char>, start: usize, end: usize) -> (r: Vec<char>)
    requires
        start <= end <= s@.len(),
    ensures
        r@ == s@.subrange(start as int, end as int),
{
    let mut out: Vec<char> = Vec::new();
    let mut i = start;
    while i < end
        invariant
            start <= i <= end,
            end <= s@.len(),
            out@ == s@.subrange(start as int, i as int),
        decreases end - i,
    {
        out.push(s[i]);
        i = i + 1;
        proof {
            assert(out@ =~= s@.subrange(start as int, i as int));
        }
    }
    out
}


/// The value of `c` as a digit in base `radix` (10 or 16), or -1 when it is none.
pub open spec fn digit_value(c: char, radix: nat) -> int {
    let u = c as u32;
    if 0x30 <= u && u <= 0x39 {
        u - 0x30
    } else if radix == 16 && 0x61 <= u && u <= 0x66 {
        u - 0x61 + 10
    } else if radix == 16 && 0x41 <= u && u <= 0x46 {
        u - 0x41 + 10
    } else {
        -1
    }
}

/// Every character of `s` is a digit in base `radix`.
pub open spec fn all_digits(s: Seq<char>, radix: nat) -> bool {
    forall|i: int| 0 <= i < s.len() ==> digit_value(#[trigger] s[i], radix) >= 0
}

/// The number that the digits `s` write in base `radix`.
pub open spec fn digits_value(s: Seq<char>, radix: nat) -> nat
    decreases s.len(),
{
    if s.len() == 0 {
        0
    } else {
        let d = digit_value(s.last(), radix);
        let d: nat = if d >= 0 { d as nat } else { 0 };
        digits_value(s.drop_last(), radix) * radix + d
    }
}

/// The digits of an unsigned number, after an optional leading `'+'`.
pub open spec fn unsigned_digits(s: Seq<char>) -> Seq<char> {
    if s.len() > 0 && s[0] == '+' {
        s.drop_first()
    } else {
        s
    }
}

/// What `from_str_radix` of an unsigned integer type with maximum `max` gives for `s`:
/// an optional `'+'`, then at least one digit, and a value no larger than `max`.
pub open spec fn parse_unsigned(s: Seq<char>, radix: nat, max: nat) -> Option<nat> {
    let d = unsigned_digits(s);
    if d.len() > 0 && all_digits(d, radix) && digits_value(d, radix) <= max {
        Some(digits_value(d, radix))
    } else {
        None
    }
}

proof fn lemma_digits_value_mono(s: Seq<char>, radix: nat, k: int)
    requires
        0 <= k <= s.len(),
        radix >= 1,
    ensures
        digits_value(s.take(k), radix) <= digits_value(s, radix),
    decreases s.len() - k,
{
    if k < s.len() {
        lemma_digits_value_mono(s, radix, k + 1);
        let t = s.take(k + 1);
        assert(t.drop_last() =~= s.take(k));
        let v = digits_value(s.take(k), radix);
        assert(v * radix >= v) by (nonlinear_arith)
            requires
                radix >= 1,
        ;
    } else {
        assert(s.take(k) =~= s);
    }
}

fn digit_exec(c: char, radix: u32) -> (r: Option<u32>)
    requires
        radix == 10 || radix == 16,
    ensures
        match r {
            Some(d) => digit_value(c, radix as nat) == d && d < radix,
            None => digit_value(c, radix as nat) < 0,
        },
{
    let u = c as u32;
    if 0x30 <= u && u <= 0x39 {
        Some(u - 0x30)
    } else if radix == 16 && 0x61 <= u && u <= 0x66 {
        Some(u - 0x61 + 10)
    } else if radix == 16 && 0x41 <= u && u <= 0x46 {
        Some(u - 0x41 + 10)
    } else {
        None
    }
}

proof fn lemma_digits_step(d: Seq<char>, radix: nat, k: int, v: nat, x: nat)
    requires
        0 <= k < d.len(),
        digits_value(d.take(k), radix) == v,
        all_digits(d.take(k), radix),
        digit_value(d[k], radix) == x,
    ensures
        digits_value(d.take(k + 1), radix) == v * radix + x,
        all_digits(d.take(k + 1), radix),
{
    let t = d.take(k + 1);
    assert(t.drop_last() =~= d.take(k));
    assert(t.last() == d[k]);
    assert forall|j: int| 0 <= j < t.len() implies digit_value(#[trigger] t[j], radix) >= 0 by {
        if j < k {
            assert(t[j] == d.take(k)[j]);
        }
    }
}

proof fn lemma_digits_overflow(d: Seq<char>, radix: nat, k: int, v: nat, x: nat, max: nat)
    requires
        0 <= k < d.len(),
        radix >= 10,
        digits_value(d.take(k), radix) == v,
        all_digits(d.take(k), radix),
        digit_value(d[k], radix) == x,
        x > max || v > (max - x) / (radix as int),
    ensures
        digits_value(d, radix) > max,
{
    lemma_digits_step(d, radix, k, v, x);
    let r = radix as int;
    let m = max as int;
    let xx = x as int;
    let vv = v as int;
    assert(vv * r + xx > m) by (nonlinear_arith)
        requires
            r >= 10,
            vv >= 0,
            xx >= 0,
            xx > m || vv > (m - xx) / r,
    ;
    lemma_digits_value_mono(d, radix, k + 1);
}

proof fn lemma_no_overflow(v: nat, x: nat, radix: nat, max: nat)
    requires
        radix >= 10,
        x <= max,
        v <= (max - x) / (radix as int),
    ensures
        v * radix + x <= max,
{
    let r = radix as int;
    let m = max as int;
    let xx = x as int;
    let vv = v as int;
    assert(vv * r + xx <= m) by (nonlinear_arith)
        requires
            r >= 10,
            vv >= 0,
            xx >= 0,
            xx <= m,
            vv <= (m - xx) / r,
    ;
}

/// Parses an unsigned integer in base `radix` no larger than `max`, as
/// `from_str_radix` (and `str::parse`) of std's unsigned types do.
pub fn parse_unsigned_exec(s: &Vec<char>, radix: u32, max: u64) -> (r: Option<u64>)
    requires
        radix == 10 || radix == 16,
    ensures
        match parse_unsigned(s@, radix as nat, max as nat) {
            Some(v) => r == Some(v as u64),
            None => r is None,
        },
{
    let start: usize = if s.len() > 0 && s[0] == '+' {
        1
    } else {
        0
    };
    let ghost d = unsigned_digits(s@);
    proof {
        assert(d =~= s@.skip(start as int));
    }
    if start == s.len() {
        return None;
    }
    let mut v: u64 = 0;
    let mut i: usize = start;
    proof {
        assert(d.take(0) =~= Seq::<char>::empty());
    }
    while i < s.len()
        invariant
            radix == 10 || radix == 16,
            start <= i <= s@.len(),
            d == s@.skip(start as int),
            d == unsigned_digits(s@),
            d.len() > 0,
            v as nat == digits_value(d.take(i - start), radix as nat),
            v <= max,
            all_digits(d.take(i - start), radix as nat),
        decreases s@.len() - i,
    {
        let dg = digit_exec(s[i], radix);
        let ghost k = i - start;
        proof {
            assert(d[k] == s@[i as int]);
        }
        match dg {
            None => {
                proof {
                    assert(digit_value(d[k], radix as nat) < 0);
                }
                return None;
            },
            Some(x) => {
                if x as u64 > max || v > (max - x as u64) / (radix as u64) {
                    proof {
                        lemma_digits_overflow(d, radix as nat, k, v as nat, x as nat, max as nat);
                    }
                    return None;
                }
                proof {
                    lemma_no_overflow(v as nat, x as nat, radix as nat, max as nat);
                    lemma_digits_step(d, radix as nat, k, v as nat, x as nat);
                }
                v = v * (radix as u64) + x as u64;
                i = i + 1;
            },
        }
    }
    proof {
        assert(d.take(i - start) =~= d);
    }
    Some(v)
}

/// Parses a decimal `u64` as `str::parse::<u64>` does.
pub fn parse_u64(s: &Vec<char>) -> (r: Option<u64>)
    ensures
        match parse_unsigned(s@, 10, u64::MAX as nat) {
            Some(v) => r == Some(v as u64),
            None => r is None,
        },
{
    parse_unsigned_exec(s, 10, u64::MAX)
}

/// Parses a `u16` in base `radix` as `u16::from_str_radix` does.
pub fn parse_u16(s: &Vec<char>, radix: u32) -> (r: Option<u16>)
    requires
        radix == 10 || radix == 16,
    ensures
        match parse_unsigned(s@, radix as nat, u16::MAX as nat) {
            Some(v) => r == Some(v as u16),
            None => r is None,
        },
{
    match parse_unsigned_exec(s, radix, u16::MAX as u64) {
        Some(v) => Some(v as u16),
        None => None,
    }
}


/// Whether two character vectors hold the same characters.
pub fn same_chars(a: &Vec<char>, b: &Vec<char>) -> (r: bool)
    ensures
        r == (a@ == b@),
{
    if a.len() != b.len() {
        return false;
    }
    let mut i: usize = 0;
    while i < a.len()
        invariant
            a@.len() == b@.len(),
            i <= a@.len(),
            forall|j: int| 0 <= j < i ==> a@[j] == b@[j],
        decreases a@.len() - i,
    {
        if a[i] != b[i] {
            return false;
        }
        i = i + 1;
    }
    proof {
        assert(a@ =~= b@);
    }
    true
}

/// Whether the characters `w` spell the text `lit`.
pub fn spells(w: &Vec<char>, lit: &str) -> (r: bool)
    ensures
        r == (w@ == lit@),
{
    let l = chars_of(lit);
    same_chars(w, &l)
}

/// The pieces joined with `sep` between each two, as `[T]::join` gives it.
pub open spec fn join(pieces: Seq<Seq<char>>, sep: char) -> Seq<char>
    decreases pieces.len(),
{
    if pieces.len() == 0 {
        seq![]
    } else if pieces.len() == 1 {
        pieces[0]
    } else {
        join(pieces.drop_last(), sep) + seq![sep] + pieces.last()
    }
}

/// Joins the pieces `pieces[from..]` with `sep` between each two.
pub fn join_from(pieces: &Vec<Vec<char>>, from: usize, sep: char) -> (r: Vec<char>)
    requires
        from <= pieces@.len(),
    ensures
        r@ == join(views(pieces@).skip(from as int), sep),
{
    let ghost pv = views(pieces@).skip(from as int);
    let mut out: Vec<char> = Vec::new();
    let mut i: usize = from;
    proof {
        assert(pv.take(0) =~= Seq::<Seq<char>>::empty());
    }
    while i < pieces.len()
        invariant
            from <= i <= pieces@.len(),
            pv == views(pieces@).skip(from as int),
            out@ == join(pv.take(i - from), sep),
        decreases pieces@.len() - i,
    {
        let ghost k = i - from;
        proof {
            assert(pv.take(k + 1).drop_last() =~= pv.take(k));
            assert(pv.take(k + 1).last() == pieces@[i as int]@);
        }
        if i > from {
            out.push(sep);
        }
        out = concat(&out, &pieces[i]);
        proof {
            if k == 0 {
                assert(pv.take(1) =~= seq![pieces@[i as int]@]);
                assert(out@ =~= pieces@[i as int]@);
            } else {
                assert(out@ =~= join(pv.take(k), sep) + seq![sep] + pieces@[i as int]@);
            }
        }
        i = i + 1;
    }
    proof {
        assert(pv.take(i - from) =~= pv);
    }
    out
}

/// `s` with every leading character that satisfies `p` removed.
pub open spec fn trim_start_where(s: Seq<char>, p: spec_fn(char) -> bool) -> Seq<char>
    decreases s.len(),
{
    if s.len() > 0 && p(s[0]) {
        trim_start_where(s.drop_first(), p)
    } else {
        s
    }
}

/// `s` with every trailing character that satisfies `p` removed.
pub open spec fn trim_end_where(s: Seq<char>, p: spec_fn(char) -> bool) -> Seq<char>
    decreases s.len(),
{
    if s.len() > 0 && p(s.last()) {
        trim_end_where(s.drop_last(), p)
    } else {
        s
    }
}

/// A double or single quote.
pub open spec fn quote_fn() -> spec_fn(char) -> bool {
    |c: char| c == '"' || c == '\''
}

/// `s` with all surrounding quote characters removed, as
/// `str::trim_matches(|c| c == '"' || c == '\'')` gives it.
pub open spec fn trim_quotes(s: Seq<char>) -> Seq<char> {
    trim_end_where(trim_start_where(s, quote_fn()), quote_fn())
}

/// `s` with all surrounding quote characters removed.
pub fn trim_quotes_exec(s: &Vec<char>) -> (r: Vec<char>)
    ensures
        r@ == trim_quotes(s@),
{
    let n = s.len();
    let mut i: usize = 0;
    proof {
        assert(s@.skip(0) =~= s@);
    }
    while i < n && (s[i] == '"' || s[i] == '\'')
        invariant
            n == s@.len(),
            i <= n,
            trim_start_where(s@.skip(i as int), quote_fn()) == trim_start_where(s@, quote_fn()),
        decreases n - i,
    {
        proof {
            assert(s@.skip(i as int).drop_first() =~= s@.skip(i + 1));
        }
        i = i + 1;
    }
    let mut t = slice_vec(s, i, n);
    proof {
        assert(t@ =~= s@.skip(i as int));
        assert(trim_start_where(t@, quote_fn()) == t@);
    }
    let ghost start_trimmed = t@;
    while t.len() > 0 && (t[t.len() - 1] == '"' || t[t.len() - 1] == '\'')
        invariant
            trim_end_where(t@, quote_fn()) == trim_end_where(start_trimmed, quote_fn()),
        decreases t.len(),
    {
        t.pop();
    }
    t
}


/// An owned copy of a text.
pub fn text(s: &str) -> (r: String)
    ensures
        r@ == s@,
{
    String::from_str(s)
}

/// The concatenation of two texts.
pub fn join2(a: &str, b: &str) -> (r: String)
    ensures
        r@ == a@ + b@,
{
    let mut out = String::from_str(a);
    out.append(b);
    out
}

/// The concatenation of three texts.
pub fn join3(a: &str, b: &str, c: &str) -> (r: String)
    ensures
        r@ == a@ + b@ + c@,
{
    let mut out = String::from_str(a);
    out.append(b);
    out.append(c);
    out
}


/// The first position at or after `i` where `w` occurs in `s`.
pub open spec fn find_from(s: Seq<char>, w: Seq<char>, i: int) -> Option<int>
    decreases s.len() + 1 - i,
{
    if i < 0 || i + w.len() > s.len() {
        None
    } else if occurs_at(s, w, i) {
        Some(i)
    } else {
        find_from(s, w, i + 1)
    }
}

/// The first position where `w` occurs in `s`, as `str::find` gives it.
pub open spec fn find(s: Seq<char>, w: Seq<char>) -> Option<int> {
    find_from(s, w, 0)
}

/// Finds the first occurrence of `w` in `s` at or after `from`.
pub fn find_from_exec(s: &Vec<char>, w: &Vec<char>, from: usize) -> (r: Option<usize>)
    ensures
        match find_from(s@, w@, from as int) {
            Some(i) => r == Some(i as usize) && i + w@.len() <= s@.len(),
            None => r is None,
        },
        r matches Some(k) ==> k + w.len() <= s.len(),
    decreases s@.len() + 1 - from,
{
    if w.len() > s.len() || from > s.len() - w.len() {
        return None;
    }
    if occurs_at_exec(s, w, from) {
        Some(from)
    } else if from == s.len() - w.len() {
        proof {
            assert(find_from(s@, w@, from + 1) is None);
        }
        None
    } else {
        find_from_exec(s, w, from + 1)
    }
}

/// Finds the first occurrence of `w` in `s`.
pub fn find_exec(s: &Vec<char>, w: &Vec<char>) -> (r: Option<usize>)
    ensures
        match find(s@, w@) {
            Some(i) => r == Some(i as usize),
            None => r is None,
        },
        r matches Some(k) ==> k + w.len() <= s.len(),
{
    find_from_exec(s, w, 0)
}

/// A position that `find_from` gives lies at or after `i`, and `w` occurs there.
pub proof fn lemma_find_from_range(s: Seq<char>, w: Seq<char>, i: int)
    ensures
        find_from(s, w, i) matches Some(k) ==> i <= k && occurs_at(s, w, k),
    decreases s.len() + 1 - i,
{
    if !(i < 0 || i + w.len() > s.len()) && !occurs_at(s, w, i) {
        lemma_find_from_range(s, w, i + 1);
    }
}

/// The last position of `c` in `s`, as `str::rfind` gives it.
pub open spec fn last_index_of(s: Seq<char>, c: char) -> Option<int>
    decreases s.len(),
{
    if s.len() == 0 {
        None
    } else if s.last() == c {
        Some(s.len() - 1)
    } else {
        last_index_of(s.drop_last(), c)
    }
}

/// The last position of `c` in `s`.
pub fn last_index_of_exec(s: &Vec<char>, c: char) -> (r: Option<usize>)
    ensures
        match last_index_of(s@, c) {
            Some(i) => r == Some(i as usize) && 0 <= i < s@.len(),
            None => r is None,
        },
        r matches Some(k) ==> k < s.len(),
{
    let mut i: usize = s.len();
    proof {
        assert(s@.take(i as int) =~= s@);
    }
    while i > 0
        invariant
            i <= s@.len(),
            last_index_of(s@, c) == last_index_of(s@.take(i as int), c),
        decreases i,
    {
        proof {
            assert(s@.take(i as int).drop_last() =~= s@.take(i - 1));
            assert(s@.take(i as int).last() == s@[i - 1]);
        }
        if s[i - 1] == c {
            return Some(i - 1);
        }
        i = i - 1;
    }
    proof {
        assert(s@.take(0).len() == 0);
    }
    None
}

/// The characters of `s` from position `from` on.
pub fn skip_vec(s: &Vec<char>, from: usize) -> (r: Vec<char>)
    requires
        from <= s@.len(),
    ensures
        r@ == s@.skip(from as int),
{
    let r = slice_vec(s, from, s.len());
    proof {
        assert(r@ =~= s@.skip(from as int));
    }
    r
}

/// The first `n` characters of `s`.
pub fn take_vec(s: &Vec<char>, n: usize) -> (r: Vec<char>)
    requires
        n <= s@.len(),
    ensures
        r@ == s@.take(n as int),
{
    let r = slice_vec(s, 0, n);
    proof {
        assert(r@ =~= s@.take(n as int));
    }
    r
}

/// The second `c`-separated piece of `s`, as `s.split(c).nth(1)` gives it.
pub open spec fn second_piece(s: Seq<char>, c: char) -> Option<Seq<char>> {
    let k = first_where(s, is_char(c));
    if k < s.len() {
        let rest = s.skip(k + 1 as int);
        Some(rest.take(first_where(rest, is_char(c)) as int))
    } else {
        None
    }
}

/// The position of the first `c` in `s`, or the length of `s`.
pub fn index_of_char(s: &Vec<char>, c: char) -> (r: usize)
    ensures
        r == first_where(s@, is_char(c)),
        r <= s@.len(),
{
    let mut i: usize = 0;
    while i < s.len() && s[i] != c
        invariant
            i <= s@.len(),
            forall|j: int| 0 <= j < i ==> s@[j] != c,
        decreases s@.len() - i,
    {
        i = i + 1;
    }
    proof {
        lemma_first_where(s@, is_char(c), i as int);
    }
    i
}

/// The second `c`-separated piece of `s`, if there is one.
pub fn second_piece_exec(s: &Vec<char>, c: char) -> (r: Option<Vec<char>>)
    ensures
        match second_piece(s@, c) {
            Some(p) => r matches Some(x) && x@ == p,
            None => r is None,
        },
{
    let k = index_of_char(s, c);
    if k < s.len() {
        let rest = skip_vec(s, k + 1);
        let e = index_of_char(&rest, c);
        Some(take_vec(&rest, e))
    } else {
        None
    }
}


/// A character of the ASCII range.
pub open spec fn is_ascii_char(c: char) -> bool {
    (c as u32) < 128
}

/// The ASCII upper-case form of a character (other characters unchanged).
pub open spec fn ascii_upper(c: char) -> char {
    if 'a' <= c <= 'z' {
        ((c as u32) - 32) as char
    } else {
        c
    }
}

/// The ASCII lower-case form of a character (other characters unchanged).
pub open spec fn ascii_lower(c: char) -> char {
    if 'A' <= c <= 'Z' {
        ((c as u32) + 32) as char
    } else {
        c
    }
}

/// What `char::to_uppercase` yields for `c`, collected into a text.
pub uninterp spec fn char_upper(c: char) -> Seq<char>;

/// What `str::to_uppercase` gives for a text.
pub uninterp spec fn text_upper(s: Seq<char>) -> Seq<char>;

/// What `str::to_lowercase` gives for a text.
pub uninterp spec fn text_lower(s: Seq<char>) -> Seq<char>;

/// The upper-case mapping of one character (std's `char::to_uppercase`,
/// collected into a `String`). Trusted: the result is `char_upper(c)`; for an
/// ASCII character it is that character's ASCII upper-case form alone, as
/// std's documentation of the Unicode case mapping gives for ASCII.
#[verifier::external_body]
pub(crate) fn upper_char(c: char) -> (r: String)
    ensures
        r@ == char_upper(c),
        is_ascii_char(c) ==> r@ == seq![ascii_upper(c)],
{
    c.to_uppercase().collect::<String>()
}

/// The upper-case form of a text (std's `str::to_uppercase`). Trusted: the
/// result is `text_upper(s)`; for an all-ASCII text it is the text with each
/// character in its ASCII upper-case form.
#[verifier::external_body]
pub(crate) fn upper_text(s: &str) -> (r: String)
    ensures
        r@ == text_upper(s@),
        (forall|i: int| 0 <= i < s@.len() ==> is_ascii_char(#[trigger] s@[i])) ==> r@ == s@.map_values(
            |c: char| ascii_upper(c),
        ),
{
    s.to_uppercase()
}

/// The lower-case form of a text (std's `str::to_lowercase`). Trusted: the
/// result is `text_lower(s)`; for an all-ASCII text it is the text with each
/// character in its ASCII lower-case form.
#[verifier::external_body]
pub(crate) fn lower_text(s: &str) -> (r: String)
    ensures
        r@ == text_lower(s@),
        (forall|i: int| 0 <= i < s@.len() ==> is_ascii_char(#[trigger] s@[i])) ==> r@ == s@.map_values(
            |c: char| ascii_lower(c),
        ),
{
    s.to_lowercase()
}

} // verus!
