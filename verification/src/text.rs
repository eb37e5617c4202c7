//! Character-level text utilities, specified over `Seq<char>`.
//!
//! Every executable helper here works on characters (Unicode scalar values),
//! which is how the views of `str` and `String` are given.

use vstd::prelude::*;

verus! {

broadcast use vstd::string::group_string_axioms;

/// The views of a sequence of character vectors.
pub open spec fn views(v: Seq<Vec<char>>) -> Seq<Seq<char>> {
    v.map_values(|x: Vec<char>| x@)
}

/// `p` is a prefix of `s`.
pub open spec fn has_prefix(s: Seq<char>, p: Seq<char>) -> bool {
    p.len() <= s.len() && s.subrange(0, p.len() as int) == p
}

/// `p` is a suffix of `s`.
pub open spec fn has_suffix(s: Seq<char>, p: Seq<char>) -> bool {
    p.len() <= s.len() && s.subrange(s.len() - p.len(), s.len() as int) == p
}

/// `p` occurs in `s` starting at index `i`.
pub open spec fn occurs_at(s: Seq<char>, p: Seq<char>, i: int) -> bool {
    0 <= i && i + p.len() <= s.len() && s.subrange(i, i + p.len()) == p
}

/// `p` occurs somewhere in `s` (the empty pattern occurs in every text).
pub open spec fn has_substring(s: Seq<char>, p: Seq<char>) -> bool {
    exists|i: int| occurs_at(s, p, i)
}

/// Whether `c` has the Unicode `White_Space` property (what `char::is_whitespace` tests).
pub open spec fn is_white(c: char) -> bool {
    let u = c as u32;
    ||| 0x09 <= u <= 0x0d
    ||| u == 0x20
    ||| u == 0x85
    ||| u == 0xa0
    ||| u == 0x1680
    ||| 0x2000 <= u <= 0x200a
    ||| u == 0x2028
    ||| u == 0x2029
    ||| u == 0x202f
    ||| u == 0x205f
    ||| u == 0x3000
}

/// `s` without its leading whitespace.
pub open spec fn trim_start(s: Seq<char>) -> Seq<char>
    decreases s.len(),
{
    if s.len() > 0 && is_white(s[0]) {
        trim_start(s.drop_first())
    } else {
        s
    }
}

/// `s` without its trailing whitespace.
pub open spec fn trim_end(s: Seq<char>) -> Seq<char>
    decreases s.len(),
{
    if s.len() > 0 && is_white(s.last()) {
        trim_end(s.drop_last())
    } else {
        s
    }
}

/// `s` without leading and trailing whitespace (what `str::trim` returns).
pub open spec fn trim(s: Seq<char>) -> Seq<char> {
    trim_end(trim_start(s))
}

/// The pieces of `s` between the occurrences of `c` (what `str::split` with a
/// character yields): one more piece than there are occurrences.
pub open spec fn split_on(s: Seq<char>, c: char) -> Seq<Seq<char>>
    decreases s.len(),
{
    if s.len() == 0 {
        seq![Seq::<char>::empty()]
    } else {
        let rest = split_on(s.drop_last(), c);
        if s.last() == c {
            rest.push(Seq::<char>::empty())
        } else {
            rest.update(rest.len() - 1, rest.last().push(s.last()))
        }
    }
}

/// The parts joined, with `sep` between consecutive parts (what `join` on a slice yields).
pub open spec fn join(parts: Seq<Seq<char>>, sep: Seq<char>) -> Seq<char>
    decreases parts.len(),
{
    if parts.len() == 0 {
        Seq::<char>::empty()
    } else if parts.len() == 1 {
        parts[0]
    } else {
        join(parts.drop_last(), sep) + sep + parts.last()
    }
}

/// `x` without one trailing carriage return, if it has one.
pub open spec fn strip_cr(x: Seq<char>) -> Seq<char> {
    if x.len() > 0 && x.last() == '\r' {
        x.drop_last()
    } else {
        x
    }
}

/// The lines of `s`, as `str::lines` yields them: split at `\n`; a line ended by
/// `\n` also loses one `\r` before it; a final line ending adds no empty line.
pub open spec fn lines(s: Seq<char>) -> Seq<Seq<char>> {
    if s.len() == 0 {
        Seq::<Seq<char>>::empty()
    } else {
        let ps = split_on(s, '\n');
        let ended = ps.take(ps.len() - 1).map_values(|x: Seq<char>| strip_cr(x));
        if s.last() == '\n' {
            ended
        } else {
            ended.push(ps.last())
        }
    }
}

/// The carriage-return line-feed pair.
pub open spec fn crlf() -> Seq<char> {
    seq!['\r', '\n']
}

/// Appends one character to a `String`.
#[verifier::external_body]
fn push_char(s: &mut String, c: char)
    ensures
        final(s)@ == old(s)@.push(c),
{
    s.push(c);
}

/// The characters of `s`, in order.
pub fn chars_of(s: &str) -> (res: Vec<char>)
    ensures
        res@ == s@,
{
    let mut res: Vec<char> = Vec::new();
    for c in it: s.chars()
        invariant
            res@ == it.seq().take(it.index() as int),
    {
        res.push(c);
    }
    res
}

/// A `String` holding the given characters.
pub fn string_of(v: &[char]) -> (res: String)
    ensures
        res@ == v@,
{
    let mut res = String::new();
    let n = v.len();
    for i in 0..n
        invariant
            n == v@.len(),
            res@ == v@.take(i as int),
    {
        push_char(&mut res, v[i]);
        assert(v@.take(i + 1) == v@.take(i as int).push(v@[i as int]));
    }
    assert(v@.take(n as int) == v@);
    res
}

/// Whether two character slices are equal.
pub fn chars_eq(a: &[char], b: &[char]) -> (res: bool)
    ensures
        res == (a@ == b@),
{
    if a.len() != b.len() {
        return false;
    }
    let n = a.len();
    for i in 0..n
        invariant
            n == a@.len(),
            n == b@.len(),
            forall|j: int| 0 <= j < i ==> a@[j] == b@[j],
    {
        if a[i] != b[i] {
            return false;
        }
    }
    assert(a@ =~= b@);
    true
}

/// Whether `p` occurs in `s` at index `i`.
pub fn occurs_at_exec(s: &[char], p: &[char], i: usize) -> (res: bool)
    ensures
        res == occurs_at(s@, p@, i as int),
{
    if i > s.len() || p.len() > s.len() - i {
        return false;
    }
    let n = p.len();
    for j in 0..n
        invariant
            n == p@.len(),
            i + n <= s.len(),
            forall|k: int| 0 <= k < j ==> s@[i + k] == p@[k],
    {
        if s[i + j] != p[j] {
            assert(s@.subrange(i as int, i + n)[j as int] != p@[j as int]);
            return false;
        }
    }
    assert(s@.subrange(i as int, i + n) =~= p@);
    true
}

/// Whether `s` begins with `p`.
pub fn starts_with(s: &[char], p: &[char]) -> (res: bool)
    ensures
        res == has_prefix(s@, p@),
{
    occurs_at_exec(s, p, 0)
}

/// Whether `s` ends with `p`.
pub fn ends_with(s: &[char], p: &[char]) -> (res: bool)
    ensures
        res == has_suffix(s@, p@),
{
    if p.len() > s.len() {
        false
    } else {
        occurs_at_exec(s, p, s.len() - p.len())
    }
}

/// Whether `p` occurs anywhere in `s`.
pub fn contains(s: &[char], p: &[char]) -> (res: bool)
    ensures
        res == has_substring(s@, p@),
{
    if p.len() > s.len() {
        assert forall|i: int| !occurs_at(s@, p@, i) by {}
        return false;
    }
    let last = s.len() - p.len();
    for i in 0..last
        invariant
            last + p@.len() == s@.len(),
            forall|k: int| 0 <= k < i ==> !occurs_at(s@, p@, k),
    {
        if occurs_at_exec(s, p, i) {
            return true;
        }
    }
    if occurs_at_exec(s, p, last) {
        return true;
    }
    assert forall|k: int| !occurs_at(s@, p@, k) by {
        if 0 <= k && k + p@.len() <= s@.len() {
            assert(k <= last);
        }
    }
    false
}

/// The characters of `v` from index `from` up to (not including) `to`.
pub fn sub_chars(v: &[char], from: usize, to: usize) -> (res: Vec<char>)
    requires
        from <= to <= v@.len(),
    ensures
        res@ == v@.subrange(from as int, to as int),
{
    let mut res: Vec<char> = Vec::new();
    for i in from..to
        invariant
            from <= to <= v@.len(),
            res@ == v@.subrange(from as int, i as int),
    {
        res.push(v[i]);
        assert(v@.subrange(from as int, i + 1) == v@.subrange(from as int, i as int).push(v@[i as int]));
    }
    res
}

/// Appends the characters of `src` to `dst`.
pub fn append_chars(dst: &mut Vec<char>, src: &[char])
    ensures
        final(dst)@ == old(dst)@ + src@,
{
    let n = src.len();
    for i in 0..n
        invariant
            n == src@.len(),
            dst@ == old(dst)@ + src@.take(i as int),
    {
        dst.push(src[i]);
        assert(src@.take(i + 1) == src@.take(i as int).push(src@[i as int]));
    }
    assert(src@.take(n as int) == src@);
}

/// The pieces of `v` between occurrences of `c`.
pub fn split_chars(v: &[char], c: char) -> (res: Vec<Vec<char>>)
    ensures
        views(res@) == split_on(v@, c),
{
    let mut parts: Vec<Vec<char>> = Vec::new();
    let mut cur: Vec<char> = Vec::new();
    let n = v.len();
    assert(v@.take(0) =~= Seq::<char>::empty());
    for i in 0..n
        invariant
            n == v@.len(),
            views(parts@).push(cur@) == split_on(v@.take(i as int), c),
    {
        let ghost before = views(parts@).push(cur@);
        assert(v@.take(i + 1).drop_last() =~= v@.take(i as int));
        if v[i] == c {
            let done = cur;
            parts.push(done);
            cur = Vec::new();
            assert(views(parts@).push(cur@) =~= before.push(Seq::<char>::empty()));
        } else {
            cur.push(v[i]);
            assert(views(parts@).push(cur@) =~= before.update(
                before.len() - 1,
                before.last().push(v@[i as int]),
            ));
        }
    }
    assert(v@.take(n as int) =~= v@);
    parts.push(cur);
    assert(views(parts@) =~= split_on(v@, c));
    parts
}

/// The parts joined with `sep` between consecutive parts.
pub fn join_chars(parts: &Vec<Vec<char>>, sep: &[char]) -> (res: Vec<char>)
    ensures
        res@ == join(views(parts@), sep@),
{
    let mut res: Vec<char> = Vec::new();
    let n = parts.len();
    for i in 0..n
        invariant
            n == parts@.len(),
            res@ == join(views(parts@).take(i as int), sep@),
    {
        let ghost prev = views(parts@).take(i as int);
        assert(views(parts@).take(i + 1).drop_last() =~= prev);
        if i > 0 {
            append_chars(&mut res, sep);
        }
        append_chars(&mut res, parts[i].as_slice());
        assert(views(parts@).take(i + 1).last() == parts@[i as int]@);
        if i == 0 {
            assert(res@ =~= views(parts@).take(1)[0]);
        }
    }
    assert(views(parts@).take(n as int) =~= views(parts@));
    res
}

/// `x` without one trailing carriage return, if it has one.
pub fn strip_cr_chars(x: &[char]) -> (res: Vec<char>)
    ensures
        res@ == strip_cr(x@),
{
    let n = x.len();
    if n > 0 && x[n - 1] == '\r' {
        sub_chars(x, 0, n - 1)
    } else {
        let r = sub_chars(x, 0, n);
        assert(x@.subrange(0, n as int) =~= x@);
        r
    }
}

/// The lines of `v`, as `str::lines` yields them.
pub fn lines_of(v: &[char]) -> (res: Vec<Vec<char>>)
    ensures
        views(res@) == lines(v@),
{
    let mut res: Vec<Vec<char>> = Vec::new();
    if v.len() == 0 {
        assert(views(res@) =~= lines(v@));
        return res;
    }
    let ps = split_chars(v, '\n');
    let ghost pv = split_on(v@, '\n');
    let m = ps.len();
    assert(m >= 1) by {
        lemma_split_nonempty(v@, '\n');
    }
    for i in 0..m - 1
        invariant
            m == ps@.len(),
            m >= 1,
            views(ps@) == pv,
            views(res@) == pv.take(i as int).map_values(|x: Seq<char>| strip_cr(x)),
    {
        assert(ps@[i as int]@ == pv[i as int]);
        let line = strip_cr_chars(ps[i].as_slice());
        let ghost old_v = views(res@);
        res.push(line);
        assert(views(res@) =~= old_v.push(strip_cr(pv[i as int])));
        assert(pv.take(i + 1).map_values(|x: Seq<char>| strip_cr(x)) =~= pv.take(
            i as int,
        ).map_values(|x: Seq<char>| strip_cr(x)).push(strip_cr(pv[i as int])));
    }
    if v[v.len() - 1] != '\n' {
        let last = sub_chars(ps[m - 1].as_slice(), 0, ps[m - 1].len());
        assert(ps@[m - 1]@.subrange(0, ps@[m - 1]@.len() as int) =~= ps@[m - 1]@);
        res.push(last);
    }
    assert(views(res@) =~= lines(v@));
    res
}

/// Whether `c` is a whitespace character.
pub fn is_white_exec(c: char) -> (res: bool)
    ensures
        res == is_white(c),
{
    let u = c as u32;
    (0x09 <= u && u <= 0x0d) || u == 0x20 || u == 0x85 || u == 0xa0 || u == 0x1680 || (0x2000
        <= u && u <= 0x200a) || u == 0x2028 || u == 0x2029 || u == 0x202f || u == 0x205f || u
        == 0x3000
}

/// `v` without leading and trailing whitespace.
pub fn trim_chars(v: &[char]) -> (res: Vec<char>)
    ensures
        res@ == trim(v@),
{
    let n = v.len();
    let mut i: usize = 0;
    assert(v@.subrange(0, n as int) =~= v@);
    while i < n && is_white_exec(v[i])
        invariant
            n == v@.len(),
            i <= n,
            trim_start(v@) == trim_start(v@.subrange(i as int, n as int)),
        decreases n - i,
    {
        assert(v@.subrange(i + 1, n as int) =~= v@.subrange(i as int, n as int).drop_first());
        i = i + 1;
    }
    let ghost front = v@.subrange(i as int, n as int);
    assert(trim_start(front) == front);
    let mut j: usize = n;
    while j > i && is_white_exec(v[j - 1])
        invariant
            i <= j <= n,
            n == v@.len(),
            trim(v@) == trim_end(v@.subrange(i as int, j as int)),
        decreases j,
    {
        assert(v@.subrange(i as int, j - 1) =~= v@.subrange(i as int, j as int).drop_last());
        j = j - 1;
    }
    assert(trim_end(v@.subrange(i as int, j as int)) == v@.subrange(i as int, j as int));
    sub_chars(v, i, j)
}

/// A split always yields at least one piece.
pub proof fn lemma_split_nonempty(s: Seq<char>, c: char)
    ensures
        split_on(s, c).len() >= 1,
    decreases s.len(),
{
    if s.len() > 0 {
        lemma_split_nonempty(s.drop_last(), c);
    }
}

/// `c` does not occur in `s`.
pub open spec fn lacks(s: Seq<char>, c: char) -> bool {
    forall|i: int| 0 <= i < s.len() ==> s[i] != c
}

/// Text without the separator splits into itself alone.
pub proof fn lemma_split_without_sep(s: Seq<char>, c: char)
    requires
        lacks(s, c),
    ensures
        split_on(s, c) == seq![s],
    decreases s.len(),
{
    if s.len() == 0 {
        assert(s =~= Seq::<char>::empty());
        assert(split_on(s, c) =~= seq![s]);
    } else {
        lemma_split_without_sep(s.drop_last(), c);
        assert(s[s.len() - 1] != c);
        assert(s.drop_last().push(s.last()) =~= s);
        assert(seq![s.drop_last()].update(0, s.drop_last().push(s.last())) =~= seq![s]);
        assert(split_on(s, c) =~= seq![s]);
    }
}

/// Splitting at a separator that stands between `a` and `b` splits each side apart.
pub proof fn lemma_split_concat(a: Seq<char>, b: Seq<char>, c: char)
    ensures
        split_on(a + seq![c] + b, c) == split_on(a, c) + split_on(b, c),
    decreases b.len(),
{
    if b.len() == 0 {
        assert(a + seq![c] + b =~= a.push(c));
        assert((a + seq![c] + b).drop_last() =~= a);
        assert(split_on(a + seq![c] + b, c) =~= split_on(a, c) + split_on(b, c));
    } else {
        lemma_split_concat(a, b.drop_last(), c);
        lemma_split_nonempty(b.drop_last(), c);
        let whole = a + seq![c] + b;
        assert(whole.drop_last() =~= a + seq![c] + b.drop_last());
        assert(whole.last() == b.last());
        let l = split_on(a, c);
        let r = split_on(b.drop_last(), c);
        if b.last() == c {
            assert(split_on(whole, c) =~= l + r.push(Seq::<char>::empty()));
        } else {
            assert((l + r).update((l + r).len() - 1, (l + r).last().push(b.last())) =~= l + r.update(
                r.len() - 1,
                r.last().push(b.last()),
            ));
        }
    }
}

/// Joining parts that do not hold the separator, then splitting, gives the parts back.
pub proof fn lemma_split_join(parts: Seq<Seq<char>>, c: char)
    requires
        parts.len() >= 1,
        forall|i: int| 0 <= i < parts.len() ==> lacks(#[trigger] parts[i], c),
    ensures
        split_on(join(parts, seq![c]), c) == parts,
    decreases parts.len(),
{
    if parts.len() == 1 {
        lemma_split_without_sep(parts[0], c);
        assert(split_on(join(parts, seq![c]), c) =~= parts);
    } else {
        let front = parts.drop_last();
        assert forall|i: int| 0 <= i < front.len() implies lacks(#[trigger] front[i], c) by {
            assert(front[i] == parts[i]);
        }
        lemma_split_join(front, c);
        lemma_split_concat(join(front, seq![c]), parts.last(), c);
        assert(lacks(parts[parts.len() - 1], c));
        lemma_split_without_sep(parts.last(), c);
        assert(split_on(join(parts, seq![c]), c) =~= parts);
    }
}

/// No piece of a split holds the separator.
pub proof fn lemma_split_pieces_lack_sep(s: Seq<char>, c: char)
    ensures
        forall|i: int| 0 <= i < split_on(s, c).len() ==> lacks(#[trigger] split_on(s, c)[i], c),
    decreases s.len(),
{
    if s.len() > 0 {
        lemma_split_pieces_lack_sep(s.drop_last(), c);
        lemma_split_nonempty(s.drop_last(), c);
        let r = split_on(s.drop_last(), c);
        assert forall|i: int| 0 <= i < split_on(s, c).len() implies lacks(
            #[trigger] split_on(s, c)[i],
            c,
        ) by {
            if i < r.len() {
                assert(lacks(r[i], c));
                if s.last() != c && i == r.len() - 1 {
                    let piece = r[i].push(s.last());
                    assert(split_on(s, c)[i] == piece);
                    assert forall|k: int| 0 <= k < piece.len() implies piece[k] != c by {
                        if k < r[i].len() {
                            assert(piece[k] == r[i][k]);
                        }
                    }
                }
            }
        }
    }
}

/// The pieces that `str::lines` sees in a text joined with `\r\n`: every part but
/// the last carries the `\r` that precedes its `\n`.
pub open spec fn cr_terminated(parts: Seq<Seq<char>>) -> Seq<Seq<char>> {
    Seq::new(
        parts.len(),
        |i: int|
            if i < parts.len() - 1 {
                parts[i].push('\r')
            } else {
                parts[i]
            },
    )
}

proof fn lemma_split_crlf_join(parts: Seq<Seq<char>>)
    requires
        parts.len() >= 1,
        forall|i: int| 0 <= i < parts.len() ==> lacks(#[trigger] parts[i], '\n'),
    ensures
        split_on(join(parts, crlf()), '\n') == cr_terminated(parts),
    decreases parts.len(),
{
    if parts.len() == 1 {
        lemma_split_without_sep(parts[0], '\n');
        assert(cr_terminated(parts) =~= seq![parts[0]]);
    } else {
        let front = parts.drop_last();
        assert forall|i: int| 0 <= i < front.len() implies lacks(#[trigger] front[i], '\n') by {
            assert(front[i] == parts[i]);
        }
        lemma_split_crlf_join(front);
        let jf = join(front, crlf());
        assert(join(parts, crlf()) =~= (jf + seq!['\r']) + seq!['\n'] + parts.last());
        lemma_split_concat(jf + seq!['\r'], parts.last(), '\n');
        assert((jf + seq!['\r']).drop_last() =~= jf);
        lemma_split_nonempty(jf, '\n');
        assert(lacks(parts[parts.len() - 1], '\n'));
        lemma_split_without_sep(parts.last(), '\n');
        let r = split_on(jf, '\n');
        assert(split_on(jf + seq!['\r'], '\n') == r.update(r.len() - 1, r.last().push('\r')));
        assert(split_on(join(parts, crlf()), '\n') =~= cr_terminated(parts));
    }
}

/// The last character of a join is that of its last part, when that part is not empty.
proof fn lemma_join_last(parts: Seq<Seq<char>>, sep: Seq<char>)
    requires
        parts.len() >= 1,
    ensures
        parts.last().len() > 0 ==> join(parts, sep).len() > 0 && join(parts, sep).last()
            == parts.last().last(),
        parts.last().len() == 0 && parts.len() >= 2 && sep.len() > 0 ==> join(parts, sep).len()
            > 0 && join(parts, sep).last() == sep.last(),
        parts.len() == 1 ==> join(parts, sep) == parts[0],
{
    if parts.len() >= 2 {
        let j = join(parts.drop_last(), sep) + sep + parts.last();
        assert(join(parts, sep) == j);
        if parts.last().len() == 0 {
            assert(j =~= join(parts.drop_last(), sep) + sep);
        }
    }
}

/// Joining lines with `\r\n` and reading the lines back gives them again, except
/// that a final empty line is lost.
pub proof fn lemma_lines_of_crlf_join(parts: Seq<Seq<char>>)
    requires
        forall|i: int| 0 <= i < parts.len() ==> lacks(#[trigger] parts[i], '\n'),
    ensures
        lines(join(parts, crlf())) == (if parts.len() > 0 && parts.last().len() == 0 {
            parts.drop_last()
        } else {
            parts
        }),
{
    let j = join(parts, crlf());
    if parts.len() == 0 {
        assert(lines(j) =~= parts);
    } else {
        lemma_split_crlf_join(parts);
        lemma_join_last(parts, crlf());
        let ps = cr_terminated(parts);
        let n = parts.len();
        assert(ps.take(n - 1).map_values(|x: Seq<char>| strip_cr(x)) =~= parts.take(n - 1)) by {
            assert forall|i: int| 0 <= i < n - 1 implies #[trigger] strip_cr(ps[i]) == parts[i] by {
                assert(ps[i] == parts[i].push('\r'));
                assert(parts[i].push('\r').drop_last() =~= parts[i]);
            }
        }
        if n == 1 && parts[0].len() == 0 {
            assert(j.len() == 0);
            assert(lines(j) =~= parts.drop_last());
        } else if parts.last().len() == 0 {
            assert(j.last() == '\n');
            assert(lines(j) =~= parts.drop_last());
        } else {
            assert(lacks(parts[n - 1], '\n'));
            assert(j.last() != '\n');
            assert(ps.last() == parts.last());
            assert(lines(j) =~= parts);
        }
    }
}

/// No line holds a `\n`.
pub proof fn lemma_lines_lack_newline(s: Seq<char>)
    ensures
        forall|i: int| 0 <= i < lines(s).len() ==> lacks(#[trigger] lines(s)[i], '\n'),
{
    if s.len() > 0 {
        let ps = split_on(s, '\n');
        lemma_split_pieces_lack_sep(s, '\n');
        lemma_split_nonempty(s, '\n');
        assert forall|i: int| 0 <= i < lines(s).len() implies lacks(#[trigger] lines(s)[i], '\n') by {
            assert(lacks(ps[i], '\n'));
            if i < ps.len() - 1 {
                assert(lines(s)[i] == strip_cr(ps[i]));
                if ps[i].len() > 0 && ps[i].last() == '\r' {
                    assert forall|k: int| 0 <= k < strip_cr(ps[i]).len() implies strip_cr(ps[i])[k] != '\n' by {
                        assert(strip_cr(ps[i])[k] == ps[i][k]);
                    }
                }
            } else {
                assert(lines(s)[i] == ps.last());
            }
        }
    }
}

/// Text that neither begins nor ends with whitespace is its own trim.
pub proof fn lemma_trim_fixed(s: Seq<char>)
    requires
        s.len() > 0,
        !is_white(s[0]),
        !is_white(s.last()),
    ensures
        trim(s) == s,
{
}

/// A trimmed text is empty or neither begins nor ends with whitespace.
pub proof fn lemma_trim_ends(s: Seq<char>)
    ensures
        trim(s).len() > 0 ==> !is_white(trim(s)[0]) && !is_white(trim(s).last()),
        trim(s).len() <= s.len(),
    decreases s.len(),
{
    lemma_trim_start_ends(s);
    lemma_trim_end_ends(trim_start(s));
}

proof fn lemma_trim_start_ends(s: Seq<char>)
    ensures
        trim_start(s).len() > 0 ==> !is_white(trim_start(s)[0]),
        trim_start(s).len() <= s.len(),
        trim_start(s) == s.subrange(s.len() - trim_start(s).len(), s.len() as int),
    decreases s.len(),
{
    if s.len() > 0 && is_white(s[0]) {
        lemma_trim_start_ends(s.drop_first());
        let t = trim_start(s.drop_first());
        assert(s.drop_first().subrange(s.drop_first().len() - t.len(), s.drop_first().len() as int)
            =~= s.subrange(s.len() - t.len(), s.len() as int));
    } else {
        assert(s.subrange(0, s.len() as int) =~= s);
    }
}

proof fn lemma_trim_end_ends(s: Seq<char>)
    ensures
        trim_end(s).len() > 0 ==> !is_white(trim_end(s).last()) && trim_end(s)[0] == s[0],
        trim_end(s).len() <= s.len(),
        trim_end(s) == s.subrange(0, trim_end(s).len() as int),
    decreases s.len(),
{
    if s.len() > 0 && is_white(s.last()) {
        lemma_trim_end_ends(s.drop_last());
        assert(s.drop_last().subrange(0, trim_end(s).len() as int) =~= s.subrange(
            0,
            trim_end(s).len() as int,
        ));
    } else {
        assert(s.subrange(0, s.len() as int) =~= s);
    }
}

/// Trimming keeps no character that the text lacks.
pub proof fn lemma_trim_lacks(s: Seq<char>, c: char)
    requires
        lacks(s, c),
    ensures
        lacks(trim(s), c),
{
    lemma_trim_start_ends(s);
    let t = trim_start(s);
    lemma_trim_end_ends(t);
    let off = s.len() - t.len();
    assert forall|k: int| 0 <= k < trim(s).len() implies trim(s)[k] != c by {
        assert(trim(s)[k] == t[k]);
        assert(t[k] == s[off + k]);
    }
}

/// `s` padded with spaces on the right to at least `width` characters (what the
/// format `{:<width}` prints).
pub open spec fn pad_right(s: Seq<char>, width: nat) -> Seq<char> {
    if s.len() >= width {
        s
    } else {
        s + Seq::new((width - s.len()) as nat, |i: int| ' ')
    }
}

/// `s` padded with spaces on the right to at least `width` characters.
pub fn pad_right_string(s: &str, width: usize) -> (res: String)
    ensures
        res@ == pad_right(s@, width as nat),
{
    let v = chars_of(s);
    let mut res = string_of(v.as_slice());
    let mut n = v.len();
    while n < width
        invariant
            v@ == s@,
            n <= width || n == v@.len(),
            n >= v@.len(),
            res@ == s@ + Seq::new((n - v@.len()) as nat, |i: int| ' '),
        decreases width - n,
    {
        push_char(&mut res, ' ');
        n = n + 1;
        assert(res@ =~= s@ + Seq::new((n - v@.len()) as nat, |i: int| ' '));
    }
    assert(s@.len() >= width ==> res@ =~= s@);
    res
}

/// The pieces of `s` between whitespace characters.
pub open spec fn split_on_white(s: Seq<char>) -> Seq<Seq<char>>
    decreases s.len(),
{
    if s.len() == 0 {
        seq![Seq::<char>::empty()]
    } else {
        let rest = split_on_white(s.drop_last());
        if is_white(s.last()) {
            rest.push(Seq::<char>::empty())
        } else {
            rest.update(rest.len() - 1, rest.last().push(s.last()))
        }
    }
}

/// The pieces that are not empty, in order.
pub open spec fn non_empty(ps: Seq<Seq<char>>) -> Seq<Seq<char>>
    decreases ps.len(),
{
    if ps.len() == 0 {
        ps
    } else if ps.last().len() == 0 {
        non_empty(ps.drop_last())
    } else {
        non_empty(ps.drop_last()).push(ps.last())
    }
}

/// The whitespace-separated words of `s` (what `str::split_whitespace` yields).
pub open spec fn words(s: Seq<char>) -> Seq<Seq<char>> {
    non_empty(split_on_white(s))
}

/// The non-empty pieces of `ps`.
pub fn non_empty_pieces(ps: &Vec<Vec<char>>) -> (res: Vec<Vec<char>>)
    ensures
        views(res@) == non_empty(views(ps@)),
{
    let mut res: Vec<Vec<char>> = Vec::new();
    let n = ps.len();
    let ghost pv = views(ps@);
    assert(pv.take(0) =~= Seq::<Seq<char>>::empty());
    for i in 0..n
        invariant
            n == pv.len(),
            pv == views(ps@),
            views(res@) == non_empty(pv.take(i as int)),
    {
        assert(pv.take(i + 1).drop_last() =~= pv.take(i as int));
        assert(pv.take(i + 1).last() == ps@[i as int]@);
        if ps[i].len() > 0 {
            let copy = sub_chars(ps[i].as_slice(), 0, ps[i].len());
            assert(ps@[i as int]@.subrange(0, ps@[i as int]@.len() as int) =~= ps@[i as int]@);
            let ghost before = views(res@);
            res.push(copy);
            assert(views(res@) =~= before.push(ps@[i as int]@));
        }
    }
    assert(pv.take(n as int) =~= pv);
    res
}

/// The whitespace-separated words of `v`.
pub fn words_of(v: &[char]) -> (res: Vec<Vec<char>>)
    ensures
        views(res@) == words(v@),
{
    let mut parts: Vec<Vec<char>> = Vec::new();
    let mut cur: Vec<char> = Vec::new();
    let n = v.len();
    assert(v@.take(0) =~= Seq::<char>::empty());
    for i in 0..n
        invariant
            n == v@.len(),
            views(parts@).push(cur@) == split_on_white(v@.take(i as int)),
    {
        let ghost before = views(parts@).push(cur@);
        assert(v@.take(i + 1).drop_last() =~= v@.take(i as int));
        if is_white_exec(v[i]) {
            let done = cur;
            parts.push(done);
            cur = Vec::new();
            assert(views(parts@).push(cur@) =~= before.push(Seq::<char>::empty()));
        } else {
            cur.push(v[i]);
            assert(views(parts@).push(cur@) =~= before.update(before.len() - 1, before.last().push(v@[i as int])));
        }
    }
    assert(v@.take(n as int) =~= v@);
    let ghost before = views(parts@);
    parts.push(cur);
    assert(views(parts@) =~= split_on_white(v@));
    non_empty_pieces(&parts)
}

/// What `str::to_lowercase` returns for the text `s`.
pub uninterp spec fn lowercase(s: Seq<char>) -> Seq<char>;

/// Calls `str::to_lowercase`. Claimed: the result is `lowercase` of the text, which
/// depends on the text alone.
#[verifier::external_body]
pub(crate) fn to_lowercase(s: &str) -> (res: String)
    ensures
        res@ == lowercase(s@),
{
    s.to_lowercase()
}

} // verus!
