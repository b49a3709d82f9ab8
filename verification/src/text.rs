//! Character-level helpers shared by the renderers and the loader: the
//! mathematical meaning of whitespace trimming, prefix tests, joining,
//! decimal numbers and line splitting, with executable versions of each.
use vstd::prelude::*;

verus! {

// ───────────────────────────── specifications ─────────────────────────────

/// The characters with the Unicode `White_Space` property, which is what
/// `char::is_whitespace` tests.
pub open spec fn is_ws(c: char) -> bool {
    let n = c as u32;
    ||| 9 <= n <= 13
    ||| n == 32
    ||| n == 0x85
    ||| n == 0xA0
    ||| n == 0x1680
    ||| 0x2000 <= n <= 0x200A
    ||| n == 0x2028
    ||| n == 0x2029
    ||| n == 0x202F
    ||| n == 0x205F
    ||| n == 0x3000
}

/// `s` without its leading whitespace.
pub open spec fn trim_start_ws(s: Seq<char>) -> Seq<char>
    decreases s.len(),
{
    if s.len() > 0 && is_ws(s[0]) {
        trim_start_ws(s.drop_first())
    } else {
        s
    }
}

/// `s` without its trailing whitespace.
pub open spec fn trim_end_ws(s: Seq<char>) -> Seq<char>
    decreases s.len(),
{
    if s.len() > 0 && is_ws(s.last()) {
        trim_end_ws(s.drop_last())
    } else {
        s
    }
}

/// `s` without leading and trailing whitespace.
pub open spec fn trim_ws(s: Seq<char>) -> Seq<char> {
    trim_end_ws(trim_start_ws(s))
}

/// The whitespace that `s` starts with.
pub open spec fn leading_ws(s: Seq<char>) -> Seq<char> {
    s.take(s.len() - trim_start_ws(s).len())
}

/// `s` without the copies of `c` at its start.
pub open spec fn trim_start_char(s: Seq<char>, c: char) -> Seq<char>
    decreases s.len(),
{
    if s.len() > 0 && s[0] == c {
        trim_start_char(s.drop_first(), c)
    } else {
        s
    }
}

/// `s` without the copies of `c` at its end.
pub open spec fn trim_end_char(s: Seq<char>, c: char) -> Seq<char>
    decreases s.len(),
{
    if s.len() > 0 && s.last() == c {
        trim_end_char(s.drop_last(), c)
    } else {
        s
    }
}

/// `s` without the copies of `c` at either end (`str::trim_matches` with a
/// character).
pub open spec fn trim_char(s: Seq<char>, c: char) -> Seq<char> {
    trim_end_char(trim_start_char(s, c), c)
}

/// Whether `s` begins with `p`.
pub open spec fn starts_with(s: Seq<char>, p: Seq<char>) -> bool {
    p.len() <= s.len() && s.take(p.len() as int) == p
}

/// Whether `s` ends with `p`.
pub open spec fn ends_with(s: Seq<char>, p: Seq<char>) -> bool {
    p.len() <= s.len() && s.skip(s.len() - p.len()) == p
}

/// `s` with every repetition of the non-empty suffix `p` removed from its end
/// (`str::trim_end_matches` with a string).
pub open spec fn trim_end_pat(s: Seq<char>, p: Seq<char>) -> Seq<char>
    decreases s.len(),
{
    if p.len() > 0 && ends_with(s, p) {
        trim_end_pat(s.take(s.len() - p.len()), p)
    } else {
        s
    }
}

/// The items of `list` with `sep` between each two neighbours.
pub open spec fn join(list: Seq<Seq<char>>, sep: Seq<char>) -> Seq<char>
    decreases list.len(),
{
    if list.len() == 0 {
        Seq::empty()
    } else if list.len() == 1 {
        list[0]
    } else {
        join(list.drop_last(), sep) + sep + list.last()
    }
}

/// The views of a list of strings.
pub open spec fn views(v: Seq<String>) -> Seq<Seq<char>> {
    Seq::new(v.len(), |i: int| v[i]@)
}

/// The decimal digit for `d < 10`.
pub open spec fn digit(d: nat) -> char {
    if d == 0 {
        '0'
    } else if d == 1 {
        '1'
    } else if d == 2 {
        '2'
    } else if d == 3 {
        '3'
    } else if d == 4 {
        '4'
    } else if d == 5 {
        '5'
    } else if d == 6 {
        '6'
    } else if d == 7 {
        '7'
    } else if d == 8 {
        '8'
    } else {
        '9'
    }
}

/// The decimal notation of `n`, without leading zeros.
pub open spec fn dec(n: nat) -> Seq<char>
    decreases n,
{
    if n < 10 {
        seq![digit(n)]
    } else {
        dec(n / 10).push(digit(n % 10))
    }
}

/// `line` without one `'\r'` at its end.
pub open spec fn strip_cr(line: Seq<char>) -> Seq<char> {
    if line.len() > 0 && line.last() == '\r' {
        line.drop_last()
    } else {
        line
    }
}

/// The lines of `s`, where `cur` is the part of the current line already read.
pub open spec fn lines_from(s: Seq<char>, cur: Seq<char>) -> Seq<Seq<char>>
    decreases s.len(),
{
    if s.len() == 0 {
        if cur.len() == 0 {
            Seq::empty()
        } else {
            seq![cur]
        }
    } else if s[0] == '\n' {
        seq![strip_cr(cur)] + lines_from(s.drop_first(), Seq::empty())
    } else {
        lines_from(s.drop_first(), cur.push(s[0]))
    }
}

/// The lines of `s` as `str::lines` gives them: split at each `'\n'`, a
/// `'\r'` just before it dropped, and no empty line after a final `'\n'`.
pub open spec fn lines(s: Seq<char>) -> Seq<Seq<char>> {
    lines_from(s, Seq::empty())
}

// ───────────────────────────── lemmas ─────────────────────────────

/// Joining one more item appends the separator and the item.
pub proof fn lemma_join_push(list: Seq<Seq<char>>, sep: Seq<char>, x: Seq<char>)
    ensures
        join(list.push(x), sep) == if list.len() == 0 {
            x
        } else {
            join(list, sep) + sep + x
        },
{
    assert(list.push(x).drop_last() =~= list);
}

// ───────────────────────────── executable ─────────────────────────────

/// Appends one character to a string.
///
/// Trusted: `String::push` appends the character at the end of the string,
/// as std's documentation states.
#[verifier::external_body]
pub fn push_char(s: &mut String, c: char)
    ensures
        final(s)@ == old(s)@.push(c),
{
    s.push(c);
}

/// The characters of a string, in order.
pub fn to_chars(s: &str) -> (v: Vec<char>)
    ensures
        v@ == s@,
{
    let mut v: Vec<char> = Vec::new();
    for c in it: s.chars()
        invariant
            v@ == it.seq().take(it.index() as int),
    {
        v.push(c);
    }
    v
}

/// Appends `v[lo..hi]` to `out`.
pub fn push_range(out: &mut String, v: &Vec<char>, lo: usize, hi: usize)
    requires
        lo <= hi <= v.len(),
    ensures
        final(out)@ == old(out)@ + v@.subrange(lo as int, hi as int),
{
    let mut i = lo;
    while i < hi
        invariant
            lo <= i <= hi <= v.len(),
            out@ == old(out)@ + v@.subrange(lo as int, i as int),
        decreases hi - i,
    {
        push_char(out, v[i]);
        i = i + 1;
        assert(v@.subrange(lo as int, i as int) =~= v@.subrange(lo as int, i - 1).push(v@[i - 1]));
    }
}

/// The string made of `v[lo..hi]`.
pub fn range_string(v: &Vec<char>, lo: usize, hi: usize) -> (r: String)
    requires
        lo <= hi <= v.len(),
    ensures
        r@ == v@.subrange(lo as int, hi as int),
{
    let mut r = String::new();
    push_range(&mut r, v, lo, hi);
    r
}

/// Whether `c` is whitespace (`char::is_whitespace`).
pub fn is_whitespace(c: char) -> (r: bool)
    ensures
        r == is_ws(c),
{
    let n = c as u32;
    (9 <= n && n <= 13) || n == 32 || n == 0x85 || n == 0xA0 || n == 0x1680 || (0x2000 <= n && n
        <= 0x200A) || n == 0x2028 || n == 0x2029 || n == 0x202F || n == 0x205F || n == 0x3000
}

/// The first position at or after `lo` that is not whitespace (or `hi`).
pub fn skip_ws(v: &Vec<char>, lo: usize, hi: usize) -> (r: usize)
    requires
        lo <= hi <= v.len(),
    ensures
        lo <= r <= hi,
        v@.subrange(r as int, hi as int) == trim_start_ws(v@.subrange(lo as int, hi as int)),
{
    let mut i = lo;
    while i < hi && is_whitespace(v[i])
        invariant
            lo <= i <= hi <= v.len(),
            trim_start_ws(v@.subrange(i as int, hi as int)) == trim_start_ws(
                v@.subrange(lo as int, hi as int),
            ),
        decreases hi - i,
    {
        assert(v@.subrange(i as int, hi as int).drop_first() =~= v@.subrange(i + 1, hi as int));
        i = i + 1;
    }
    i
}

/// The end of `v[lo..hi]` once its trailing whitespace is dropped.
pub fn back_ws(v: &Vec<char>, lo: usize, hi: usize) -> (r: usize)
    requires
        lo <= hi <= v.len(),
    ensures
        lo <= r <= hi,
        v@.subrange(lo as int, r as int) == trim_end_ws(v@.subrange(lo as int, hi as int)),
{
    let mut j = hi;
    while j > lo && is_whitespace(v[j - 1])
        invariant
            lo <= j <= hi <= v.len(),
            trim_end_ws(v@.subrange(lo as int, j as int)) == trim_end_ws(
                v@.subrange(lo as int, hi as int),
            ),
        decreases j - lo,
    {
        assert(v@.subrange(lo as int, j as int).drop_last() =~= v@.subrange(lo as int, j - 1));
        j = j - 1;
    }
    j
}

/// The first position at or after `lo` that does not hold `c` (or `hi`).
pub fn skip_char(v: &Vec<char>, lo: usize, hi: usize, c: char) -> (r: usize)
    requires
        lo <= hi <= v.len(),
    ensures
        lo <= r <= hi,
        v@.subrange(r as int, hi as int) == trim_start_char(v@.subrange(lo as int, hi as int), c),
{
    let mut i = lo;
    while i < hi && v[i] == c
        invariant
            lo <= i <= hi <= v.len(),
            trim_start_char(v@.subrange(i as int, hi as int), c) == trim_start_char(
                v@.subrange(lo as int, hi as int),
                c,
            ),
        decreases hi - i,
    {
        assert(v@.subrange(i as int, hi as int).drop_first() =~= v@.subrange(i + 1, hi as int));
        i = i + 1;
    }
    i
}

/// The end of `v[lo..hi]` once the copies of `c` at its end are dropped.
pub fn back_char(v: &Vec<char>, lo: usize, hi: usize, c: char) -> (r: usize)
    requires
        lo <= hi <= v.len(),
    ensures
        lo <= r <= hi,
        v@.subrange(lo as int, r as int) == trim_end_char(v@.subrange(lo as int, hi as int), c),
{
    let mut j = hi;
    while j > lo && v[j - 1] == c
        invariant
            lo <= j <= hi <= v.len(),
            trim_end_char(v@.subrange(lo as int, j as int), c) == trim_end_char(
                v@.subrange(lo as int, hi as int),
                c,
            ),
        decreases j - lo,
    {
        assert(v@.subrange(lo as int, j as int).drop_last() =~= v@.subrange(lo as int, j - 1));
        j = j - 1;
    }
    j
}

/// Whether `v[lo..hi]` begins with `p`.
pub fn has_prefix(v: &Vec<char>, lo: usize, hi: usize, p: &str) -> (r: bool)
    requires
        lo <= hi <= v.len(),
    ensures
        r == starts_with(v@.subrange(lo as int, hi as int), p@),
{
    let pv = to_chars(p);
    if pv.len() > hi - lo {
        return false;
    }
    let mut k: usize = 0;
    while k < pv.len()
        invariant
            lo <= hi <= v.len(),
            pv@ == p@,
            pv.len() <= hi - lo,
            k <= pv.len(),
            forall|m: int| 0 <= m < k ==> v@[lo + m] == pv@[m],
        decreases pv.len() - k,
    {
        if v[lo + k] != pv[k] {
            assert(v@.subrange(lo as int, hi as int).take(pv.len() as int)[k as int] != p@[k as int]);
            return false;
        }
        k = k + 1;
    }
    assert(v@.subrange(lo as int, hi as int).take(pv.len() as int) =~= p@);
    true
}

/// Whether `v[lo..hi]` is exactly `p`.
pub fn range_eq(v: &Vec<char>, lo: usize, hi: usize, p: &str) -> (r: bool)
    requires
        lo <= hi <= v.len(),
    ensures
        r == (v@.subrange(lo as int, hi as int) == p@),
{
    let b = has_prefix(v, lo, hi, p);
    if b && p.unicode_len() == hi - lo {
        assert(v@.subrange(lo as int, hi as int) =~= v@.subrange(lo as int, hi as int).take(
            p@.len() as int,
        ));
        true
    } else {
        proof {
            if v@.subrange(lo as int, hi as int) == p@ {
                assert(v@.subrange(lo as int, hi as int).take(p@.len() as int) =~= p@);
            }
        }
        false
    }
}

/// The decimal digit for `d < 10`.
pub fn digit_of(d: u64) -> (c: char)
    requires
        d < 10,
    ensures
        c == digit(d as nat),
{
    if d == 0 {
        '0'
    } else if d == 1 {
        '1'
    } else if d == 2 {
        '2'
    } else if d == 3 {
        '3'
    } else if d == 4 {
        '4'
    } else if d == 5 {
        '5'
    } else if d == 6 {
        '6'
    } else if d == 7 {
        '7'
    } else if d == 8 {
        '8'
    } else {
        '9'
    }
}

/// Appends the decimal notation of `n` to `out`.
pub fn push_dec(out: &mut String, n: u64)
    ensures
        final(out)@ == old(out)@ + dec(n as nat),
    decreases n,
{
    if n >= 10 {
        push_dec(out, n / 10);
        push_char(out, digit_of(n % 10));
        assert(dec(n as nat) == dec((n / 10) as nat).push(digit((n % 10) as nat)));
        assert(old(out)@ + dec((n / 10) as nat) + seq![digit((n % 10) as nat)] =~= old(out)@
            + dec(n as nat));
    } else {
        push_char(out, digit_of(n));
        assert(old(out)@.push(digit(n as nat)) =~= old(out)@ + dec(n as nat));
    }
}

/// Appends the items of `list`, separated by `sep`, to `out`.
pub fn push_join(out: &mut String, list: &Vec<String>, sep: &str)
    ensures
        final(out)@ == old(out)@ + join(views(list@), sep@),
{
    let n = list.len();
    for i in 0..n
        invariant
            n == list.len(),
            out@ == old(out)@ + join(views(list@).take(i as int), sep@),
    {
        proof {
            lemma_join_push(views(list@).take(i as int), sep@, list@[i as int]@);
            assert(views(list@).take(i as int).push(list@[i as int]@) =~= views(list@).take(
                i + 1,
            ));
        }
        if i > 0 {
            out.append(sep);
        }
        out.append(list[i].as_str());
        proof {
            if i > 0 {
                assert(old(out)@ + join(views(list@).take(i as int), sep@) + sep@ + list@[i as int]@
                    =~= old(out)@ + (join(views(list@).take(i as int), sep@) + sep@
                    + list@[i as int]@));
            } else {
                assert(views(list@).take(0) =~= Seq::<Seq<char>>::empty());
            }
        }
    }
    assert(views(list@).take(n as int) =~= views(list@));
}

/// `s` without leading and trailing whitespace (`str::trim`).
pub fn trim(s: &str) -> (r: String)
    ensures
        r@ == trim_ws(s@),
{
    let v = to_chars(s);
    let a = skip_ws(&v, 0, v.len());
    let b = back_ws(&v, a, v.len());
    assert(v@.subrange(0, v.len() as int) =~= s@);
    range_string(&v, a, b)
}

/// `s` without trailing whitespace (`str::trim_end`).
pub fn trim_end(s: &str) -> (r: String)
    ensures
        r@ == trim_end_ws(s@),
{
    let v = to_chars(s);
    let b = back_ws(&v, 0, v.len());
    assert(v@.subrange(0, v.len() as int) =~= s@);
    range_string(&v, 0, b)
}


/// The end of `v[lo..hi]` once every repetition of `p` at its end is dropped.
pub fn back_pat(v: &Vec<char>, lo: usize, hi: usize, p: &str) -> (r: usize)
    requires
        lo <= hi <= v.len(),
        p@.len() > 0,
    ensures
        lo <= r <= hi,
        v@.subrange(lo as int, r as int) == trim_end_pat(v@.subrange(lo as int, hi as int), p@),
{
    let plen = p.unicode_len();
    let mut j = hi;
    while j - lo >= plen && range_eq(v, j - plen, j, p)
        invariant
            lo <= j <= hi <= v.len(),
            plen == p@.len(),
            plen > 0,
            trim_end_pat(v@.subrange(lo as int, j as int), p@) == trim_end_pat(
                v@.subrange(lo as int, hi as int),
                p@,
            ),
        decreases j - lo,
    {
        let ghost t = v@.subrange(lo as int, j as int);
        assert(t.skip(t.len() - p@.len()) =~= v@.subrange(j - plen, j as int));
        assert(t.take(t.len() - p@.len()) =~= v@.subrange(lo as int, j - plen));
        j = j - plen;
    }
    proof {
        let t = v@.subrange(lo as int, j as int);
        if j - lo >= plen {
            assert(t.skip(t.len() - p@.len()) =~= v@.subrange(j - plen, j as int));
        }
    }
    j
}

/// `s` with every repetition of `p` at its end dropped
/// (`str::trim_end_matches`).
pub fn trim_end_matches(s: &str, p: &str) -> (r: String)
    requires
        p@.len() > 0,
    ensures
        r@ == trim_end_pat(s@, p@),
{
    let v = to_chars(s);
    let b = back_pat(&v, 0, v.len(), p);
    assert(v@.subrange(0, v.len() as int) =~= s@);
    range_string(&v, 0, b)
}


/// The lines of a text (`str::lines`).
pub fn split_lines(s: &str) -> (r: Vec<String>)
    ensures
        views(r@) == lines(s@),
{
    let v = to_chars(s);
    let n = v.len();
    let mut r: Vec<String> = Vec::new();
    let mut start: usize = 0;
    let mut i: usize = 0;
    assert(v@.skip(0) =~= v@);
    assert(v@.subrange(0, 0) =~= Seq::<char>::empty());
    while i < n
        invariant
            n == v.len(),
            v@ == s@,
            start <= i <= n,
            lines(s@) == views(r@) + lines_from(v@.skip(i as int), v@.subrange(
                start as int,
                i as int,
            )),
        decreases n - i,
    {
        let ghost cur = v@.subrange(start as int, i as int);
        assert(v@.skip(i as int)[0] == v@[i as int]);
        assert(v@.skip(i as int).drop_first() =~= v@.skip(i + 1));
        if v[i] == '\n' {
            let end = if i > start && v[i - 1] == '\r' {
                i - 1
            } else {
                i
            };
            assert(v@.subrange(start as int, end as int) =~= strip_cr(cur));
            let line = range_string(&v, start, end);
            let ghost prev = views(r@);
            r.push(line);
            assert(views(r@) =~= prev.push(strip_cr(cur)));
            i = i + 1;
            start = i;
            assert(v@.subrange(start as int, i as int) =~= Seq::<char>::empty());
            assert(lines_from(v@.skip(i - 1), cur) == seq![strip_cr(cur)] + lines_from(
                v@.skip(i as int),
                Seq::empty(),
            ));
            assert(lines(s@) =~= views(r@) + lines_from(v@.skip(i as int), v@.subrange(
                start as int,
                i as int,
            )));
        } else {
            assert(cur.push(v@[i as int]) =~= v@.subrange(start as int, i + 1));
            i = i + 1;
        }
    }
    assert(v@.skip(n as int) =~= Seq::<char>::empty());
    if start < n {
        let line = range_string(&v, start, n);
        let ghost prev = views(r@);
        r.push(line);
        assert(views(r@) =~= prev.push(v@.subrange(start as int, n as int)));
    }
    r
}


// ───────────────────────────── ordered concatenation ─────────────────────────────

/// The pieces `g(s[0]) + g(s[1]) + ... + g(s[n - 1])`, in order.
pub open spec fn concat_map<A, B>(s: Seq<A>, g: spec_fn(A) -> Seq<B>) -> Seq<B>
    decreases s.len(),
{
    if s.len() == 0 {
        Seq::empty()
    } else {
        concat_map(s.drop_last(), g) + g(s.last())
    }
}

/// The pieces of two runs, one after the other.
pub proof fn lemma_concat_map_append<A, B>(a: Seq<A>, b: Seq<A>, g: spec_fn(A) -> Seq<B>)
    ensures
        concat_map(a + b, g) == concat_map(a, g) + concat_map(b, g),
    decreases b.len(),
{
    if b.len() == 0 {
        assert(a + b =~= a);
        assert(concat_map(a, g) + concat_map(b, g) =~= concat_map(a, g));
    } else {
        assert((a + b).drop_last() =~= a + b.drop_last());
        assert((a + b).last() == b.last());
        lemma_concat_map_append(a, b.drop_last(), g);
        assert(concat_map(a + b, g) =~= concat_map(a, g) + concat_map(b, g));
    }
}

/// The piece of one item.
pub proof fn lemma_concat_map_single<A, B>(x: A, g: spec_fn(A) -> Seq<B>)
    ensures
        concat_map(seq![x], g) == g(x),
{
    assert(seq![x].drop_last() =~= Seq::<A>::empty());
    assert(concat_map(Seq::<A>::empty(), g) == Seq::<B>::empty());
    assert(Seq::<B>::empty() + g(x) =~= g(x));
}

/// The `k`-th piece stands between the pieces of the items before and after
/// it.
pub proof fn lemma_concat_map_at<A, B>(s: Seq<A>, k: int, g: spec_fn(A) -> Seq<B>)
    requires
        0 <= k < s.len(),
    ensures
        concat_map(s, g) == concat_map(s.take(k), g) + g(s[k]) + concat_map(s.skip(k + 1), g),
{
    assert(s =~= s.take(k) + seq![s[k]] + s.skip(k + 1));
    lemma_concat_map_append(s.take(k) + seq![s[k]], s.skip(k + 1), g);
    lemma_concat_map_append(s.take(k), seq![s[k]], g);
    lemma_concat_map_single(s[k], g);
}


// ───────────────────────────── laws of numbers and lines ─────────────────────────────

/// The value of a digit character.
pub open spec fn digit_value(c: char) -> int {
    (c as u32) - ('0' as u32)
}

/// The number a string of decimal digits denotes.
pub open spec fn decimal_value(s: Seq<char>) -> int
    decreases s.len(),
{
    if s.len() == 0 {
        0
    } else {
        decimal_value(s.drop_last()) * 10 + digit_value(s.last())
    }
}

/// The decimal notation of `n` reads back as `n`, is made of digits, and
/// starts with a zero only when it is `0`.
pub proof fn lemma_dec_reads_back(n: nat)
    ensures
        decimal_value(dec(n)) == n,
        forall|i: int| 0 <= i < dec(n).len() ==> '0' <= #[trigger] dec(n)[i] <= '9',
        dec(n).len() >= 1,
        dec(n)[0] == '0' ==> n == 0,
    decreases n,
{
    if n >= 10 {
        lemma_dec_reads_back(n / 10);
        let d = dec(n);
        assert(d.drop_last() =~= dec(n / 10));
        assert(d.last() == digit(n % 10));
        assert(digit_value(digit(n % 10)) == n % 10);
        assert((n / 10) * 10 + n % 10 == n) by (nonlinear_arith);
        assert forall|i: int| 0 <= i < d.len() implies '0' <= #[trigger] d[i] <= '9' by {
            if i < d.len() - 1 {
                assert(d[i] == dec(n / 10)[i]);
            }
        }
        assert(d[0] == dec(n / 10)[0]);
    } else {
        assert(seq![digit(n)].drop_last() =~= Seq::<char>::empty());
        assert(decimal_value(Seq::<char>::empty()) == 0);
    }
}

/// Reading the lines of a text: a line without a newline, then a newline,
/// makes the first line (without a `'\r'` just before the newline), and the
/// lines of the rest follow.
proof fn lemma_lines_from_line(t: Seq<char>, rest: Seq<char>, cur: Seq<char>)
    requires
        !t.contains('\n'),
    ensures
        lines_from(t + seq!['\n'] + rest, cur) == seq![strip_cr(cur + t)] + lines(rest),
    decreases t.len(),
{
    if t.len() == 0 {
        assert(t + seq!['\n'] + rest =~= seq!['\n'] + rest);
        assert((seq!['\n'] + rest).drop_first() =~= rest);
        assert(cur + t =~= cur);
    } else {
        assert((t + seq!['\n'] + rest)[0] == t[0]);
        assert((t + seq!['\n'] + rest).drop_first() =~= t.drop_first() + seq!['\n'] + rest);
        assert(!t.drop_first().contains('\n')) by {
            if t.drop_first().contains('\n') {
                let k = choose|k: int| 0 <= k < t.drop_first().len() && t.drop_first()[k] == '\n';
                assert(t[k + 1] == '\n');
            }
        }
        assert(t[0] != '\n') by {
            if t[0] == '\n' {
                assert(t.contains('\n'));
            }
        }
        lemma_lines_from_line(t.drop_first(), rest, cur.push(t[0]));
        assert(cur.push(t[0]) + t.drop_first() =~= cur + t);
    }
}

/// The lines of a text: each newline ends one line (a `'\r'` just before it
/// is dropped), in order, and a last line without a newline still counts.
pub proof fn lemma_lines_in_order(line: Seq<char>, rest: Seq<char>)
    requires
        !line.contains('\n'),
    ensures
        lines(line + seq!['\n'] + rest) == seq![strip_cr(line)] + lines(rest),
        line.len() > 0 ==> lines(line) == seq![line],
{
    lemma_lines_from_line(line, rest, Seq::empty());
    assert(Seq::<char>::empty() + line =~= line);
    if line.len() > 0 {
        lemma_lines_last(line, Seq::empty());
    }
}

/// The last line of a text without a newline at its end.
proof fn lemma_lines_last(t: Seq<char>, cur: Seq<char>)
    requires
        !t.contains('\n'),
        t.len() + cur.len() > 0,
    ensures
        lines_from(t, cur) == seq![cur + t],
    decreases t.len(),
{
    if t.len() == 0 {
        assert(cur + t =~= cur);
    } else {
        assert(t[0] != '\n') by {
            if t[0] == '\n' {
                assert(t.contains('\n'));
            }
        }
        assert(!t.drop_first().contains('\n')) by {
            if t.drop_first().contains('\n') {
                let k = choose|k: int| 0 <= k < t.drop_first().len() && t.drop_first()[k] == '\n';
                assert(t[k + 1] == '\n');
            }
        }
        lemma_lines_last(t.drop_first(), cur.push(t[0]));
        assert(cur.push(t[0]) + t.drop_first() =~= cur + t);
    }
}

} // verus!
