//! Character-level text handling: whitespace, words, trimming, separators.
//!
//! Strings are modelled by their sequence of characters (`Seq<char>`); the
//! executable functions work on one decoded pass over the input.

use vstd::prelude::*;

verus! {

/// Whether `c` carries the Unicode `White_Space` property.
pub open spec fn is_whitespace(c: char) -> bool {
    let n = c as u32;
    ||| 0x09 <= n <= 0x0d
    ||| n == 0x20
    ||| n == 0x85
    ||| n == 0xa0
    ||| n == 0x1680
    ||| 0x2000 <= n <= 0x200a
    ||| n == 0x2028
    ||| n == 0x2029
    ||| n == 0x202f
    ||| n == 0x205f
    ||| n == 0x3000
}

/// No character of `s` is whitespace.
pub open spec fn whitespace_free(s: Seq<char>) -> bool {
    forall|i: int| 0 <= i < s.len() ==> !is_whitespace(#[trigger] s[i])
}

/// Every character of `s` is whitespace.
pub open spec fn all_whitespace(s: Seq<char>) -> bool {
    forall|i: int| 0 <= i < s.len() ==> is_whitespace(#[trigger] s[i])
}

/// The character views of a sequence of strings.
pub open spec fn views(v: Seq<String>) -> Seq<Seq<char>> {
    Seq::new(v.len(), |i: int| v[i]@)
}

/// Length of the longest whitespace-free prefix of `s`.
pub open spec fn run_len(s: Seq<char>) -> nat
    decreases s.len(),
{
    if s.len() == 0 || is_whitespace(s[0]) {
        0
    } else {
        1 + run_len(s.drop_first())
    }
}

/// The words of `s`: its maximal runs of non-whitespace characters, in order.
pub open spec fn words(s: Seq<char>) -> Seq<Seq<char>>
    decreases s.len(),
{
    if s.len() == 0 {
        Seq::empty()
    } else if is_whitespace(s[0]) {
        words(s.drop_first())
    } else {
        let n = run_len(s) as int;
        if 0 < n <= s.len() {
            seq![s.take(n)] + words(s.skip(n))
        } else {
            // Not reached: the run holds `s[0]` and lies within `s`.
            Seq::empty()
        }
    }
}

/// `s` without its trailing whitespace.
pub open spec fn trim_end(s: Seq<char>) -> Seq<char>
    decreases s.len(),
{
    if s.len() > 0 && is_whitespace(s.last()) {
        trim_end(s.drop_last())
    } else {
        s
    }
}

/// `s` without its leading whitespace.
pub open spec fn trim_start(s: Seq<char>) -> Seq<char>
    decreases s.len(),
{
    if s.len() > 0 && is_whitespace(s[0]) {
        trim_start(s.drop_first())
    } else {
        s
    }
}

/// `s` without leading and trailing whitespace.
pub open spec fn trim(s: Seq<char>) -> Seq<char> {
    trim_start(trim_end(s))
}

/// Position of the first `c` in `s`, or `s.len()` when `s` holds none.
pub open spec fn first_index(s: Seq<char>, c: char) -> int
    decreases s.len(),
{
    if s.len() == 0 || s[0] == c {
        0
    } else {
        1 + first_index(s.drop_first(), c)
    }
}

/// Token `i` followed by separator `i`, for every token in order; a token
/// without a separator of its own is followed by nothing.
pub open spec fn interleave(tokens: Seq<Seq<char>>, separators: Seq<Seq<char>>) -> Seq<char>
    decreases tokens.len(),
{
    if tokens.len() == 0 {
        Seq::empty()
    } else {
        let last = tokens.len() - 1;
        let sep = if last < separators.len() {
            separators[last]
        } else {
            Seq::empty()
        };
        interleave(tokens.drop_last(), separators) + tokens.last() + sep
    }
}

/// The decimal digit for `d`, `0 <= d <= 9`.
pub open spec fn digit(d: nat) -> char {
    if d == 0 {
        '0'
    } else if d == 1 {
        '1'
    } else if d == 2 {
        '2'
    } else if d == 3 {
        '3'
    } else if d == 4 {
        '4'
    } else if d == 5 {
        '5'
    } else if d == 6 {
        '6'
    } else if d == 7 {
        '7'
    } else if d == 8 {
        '8'
    } else {
        '9'
    }
}

/// `n` written in base ten, without leading zeros.
pub open spec fn decimal(n: nat) -> Seq<char>
    decreases n,
{
    if n < 10 {
        seq![digit(n)]
    } else {
        decimal(n / 10).push(digit(n % 10))
    }
}

/// `String::push` appends one character to the end of the string.
pub assume_specification[ String::push ](s: &mut String, c: char)
    ensures
        final(s)@ == old(s)@.push(c),
;

/// Decides `is_whitespace` for one character.
pub fn char_is_whitespace(c: char) -> (b: bool)
    ensures
        b == is_whitespace(c),
{
    let n: u32 = c as u32;
    (0x09 <= n && n <= 0x0d) || n == 0x20 || n == 0x85 || n == 0xa0 || n == 0x1680 || (0x2000 <= n
        && n <= 0x200a) || n == 0x2028 || n == 0x2029 || n == 0x202f || n == 0x205f || n == 0x3000
}

/// The characters of `s`, in order.
pub fn chars_of(s: &str) -> (v: Vec<char>)
    ensures
        v@ == s@,
{
    let mut v: Vec<char> = Vec::new();
    for c in it: s.chars()
        invariant
            it.seq() == s@,
            v@ == s@.take(it.index() as int),
    {
        v.push(c);
    }
    v
}

/// The string made of the characters `v[from..to]`.
pub fn string_of(v: &Vec<char>, from: usize, to: usize) -> (s: String)
    requires
        from <= to <= v.len(),
    ensures
        s@ == v@.subrange(from as int, to as int),
{
    let mut s = String::new();
    let mut i: usize = from;
    while i < to
        invariant
            from <= i <= to <= v.len(),
            s@ == v@.subrange(from as int, i as int),
        decreases to - i,
    {
        s.push(v[i]);
        i = i + 1;
    }
    s
}

/// A whitespace-free stretch that ends at the end of `s` or before a
/// whitespace character is the longest whitespace-free prefix.
pub proof fn lemma_run_len(s: Seq<char>, n: int)
    requires
        0 <= n <= s.len(),
        whitespace_free(s.take(n)),
        n == s.len() || is_whitespace(s[n]),
    ensures
        run_len(s) == n,
    decreases n,
{
    if n == 0 {
    } else {
        assert(s[0] == s.take(n)[0]);
        let rest = s.drop_first();
        assert forall|i: int| 0 <= i < n - 1 implies !is_whitespace(#[trigger] rest.take(n - 1)[i]) by {
            assert(rest.take(n - 1)[i] == s.take(n)[i + 1]);
        }
        lemma_run_len(rest, n - 1);
    }
}

/// The longest whitespace-free prefix is whitespace-free, fits in `s`, and
/// stops at the end of `s` or before a whitespace character.
pub proof fn lemma_run_len_bounds(s: Seq<char>)
    ensures
        run_len(s) <= s.len(),
        whitespace_free(s.take(run_len(s) as int)),
        run_len(s) == s.len() || is_whitespace(s[run_len(s) as int]),
        s.len() > 0 && !is_whitespace(s[0]) ==> run_len(s) > 0,
    decreases s.len(),
{
    if s.len() == 0 || is_whitespace(s[0]) {
    } else {
        let rest = s.drop_first();
        lemma_run_len_bounds(rest);
        let n = run_len(s) as int;
        assert forall|i: int| 0 <= i < n implies !is_whitespace(#[trigger] s.take(n)[i]) by {
            if i > 0 {
                assert(s.take(n)[i] == rest.take(n - 1)[i - 1]);
            }
        }
    }
}

/// Where `a` ends or `b` begins with whitespace, or one of them is empty,
/// the words of `a + b` are the words of `a` followed by the words of `b`.
pub proof fn lemma_words_concat(a: Seq<char>, b: Seq<char>)
    requires
        a.len() == 0 || b.len() == 0 || is_whitespace(a.last()) || is_whitespace(b[0]),
    ensures
        words(a + b) == words(a) + words(b),
    decreases a.len(),
{
    if a.len() == 0 {
        assert(a + b == b);
        assert(words(a) + words(b) == words(b));
    } else if b.len() == 0 {
        assert(a + b == a);
        assert(words(a) + words(b) == words(a));
    } else if is_whitespace(a[0]) {
        assert((a + b).drop_first() == a.drop_first() + b);
        if a.len() > 1 {
            assert(a.drop_first().last() == a.last());
        }
        lemma_words_concat(a.drop_first(), b);
    } else {
        let n = run_len(a) as int;
        lemma_run_len_bounds(a);
        assert((a + b).take(n) == a.take(n));
        if n == a.len() {
            assert(a.take(n) == a);
            assert(!is_whitespace(a.take(n)[n - 1]));
        }
        lemma_run_len(a + b, n);
        assert((a + b).skip(n) == a.skip(n) + b);
        if n < a.len() {
            assert(a.skip(n).last() == a.last());
        }
        lemma_words_concat(a.skip(n), b);
        assert(words(a + b) == seq![a.take(n)] + (words(a.skip(n)) + words(b)));
        assert(words(a) == seq![a.take(n)] + words(a.skip(n)));
        assert(seq![a.take(n)] + (words(a.skip(n)) + words(b)) == (seq![a.take(n)] + words(
            a.skip(n),
        )) + words(b));
    }
}

/// A non-empty text without whitespace is one word.
pub proof fn lemma_words_single(token: Seq<char>)
    requires
        token.len() > 0,
        whitespace_free(token),
    ensures
        words(token) == seq![token],
{
    let n = token.len() as int;
    assert(token.take(n) == token);
    assert(!is_whitespace(token[0]));
    lemma_run_len(token, n);
    assert(token.skip(n) == Seq::<char>::empty());
    assert(words(token.skip(n)) == Seq::<Seq<char>>::empty());
    assert(words(token) == seq![token.take(n)] + words(token.skip(n)));
    assert(seq![token] + Seq::<Seq<char>>::empty() == seq![token]);
}

/// A text has no words exactly when it is all whitespace.
pub proof fn lemma_words_blank(s: Seq<char>)
    ensures
        words(s).len() == 0 <==> all_whitespace(s),
    decreases s.len(),
{
    if s.len() == 0 {
    } else if is_whitespace(s[0]) {
        let rest = s.drop_first();
        lemma_words_blank(rest);
        if all_whitespace(rest) {
            assert forall|i: int| 0 <= i < s.len() implies is_whitespace(#[trigger] s[i]) by {
                if i > 0 {
                    assert(s[i] == rest[i - 1]);
                }
            }
        }
        if all_whitespace(s) {
            assert forall|i: int| 0 <= i < rest.len() implies is_whitespace(#[trigger] rest[i]) by {
                assert(rest[i] == s[i + 1]);
            }
        }
    } else {
        lemma_run_len_bounds(s);
        assert(!is_whitespace(s[0]));
    }
}

/// Every word is non-empty and holds no whitespace.
pub proof fn lemma_words_wellformed(s: Seq<char>)
    ensures
        forall|i: int|
            0 <= i < words(s).len() ==> (#[trigger] words(s)[i]).len() > 0 && whitespace_free(
                words(s)[i],
            ),
    decreases s.len(),
{
    if s.len() == 0 {
    } else if is_whitespace(s[0]) {
        lemma_words_wellformed(s.drop_first());
        assert(words(s) == words(s.drop_first()));
    } else {
        let n = run_len(s) as int;
        lemma_run_len_bounds(s);
        assert(0 < n <= s.len());
        lemma_words_wellformed(s.skip(n));
        let rest = words(s.skip(n));
        assert forall|i: int| 0 <= i < words(s).len() implies (#[trigger] words(s)[i]).len() > 0
            && whitespace_free(words(s)[i]) by {
            assert(words(s) == seq![s.take(n)] + rest);
            if i > 0 {
                assert(words(s)[i] == rest[i - 1]);
            } else {
                assert(words(s)[0] == s.take(n));
                assert(s.take(n).len() == n);
            }
        }
    }
}

/// Trailing whitespace holds no word.
pub proof fn lemma_words_trim_end(s: Seq<char>)
    ensures
        words(trim_end(s)) == words(s),
    decreases s.len(),
{
    if s.len() > 0 && is_whitespace(s.last()) {
        let head = s.drop_last();
        let tail = seq![s.last()];
        lemma_words_trim_end(head);
        assert(head + tail == s);
        lemma_words_concat(head, tail);
        assert(all_whitespace(tail));
        lemma_words_blank(tail);
        assert(words(head) + words(tail) == words(head));
    }
}

/// A trimmed text is empty or ends with a character that is no whitespace;
/// it is empty exactly when the text is all whitespace.
pub proof fn lemma_trim_end_tail(s: Seq<char>)
    ensures
        trim_end(s).len() == 0 || !is_whitespace(trim_end(s).last()),
        trim_end(s).len() == 0 <==> all_whitespace(s),
    decreases s.len(),
{
    if s.len() > 0 && is_whitespace(s.last()) {
        let head = s.drop_last();
        lemma_trim_end_tail(head);
        if all_whitespace(head) {
            assert forall|i: int| 0 <= i < s.len() implies is_whitespace(#[trigger] s[i]) by {
                if i < head.len() {
                    assert(s[i] == head[i]);
                }
            }
        }
        if all_whitespace(s) {
            assert forall|i: int| 0 <= i < head.len() implies is_whitespace(#[trigger] head[i]) by {
                assert(head[i] == s[i]);
            }
        }
    } else if s.len() > 0 {
        assert(!is_whitespace(s[s.len() - 1]));
    }
}

/// Tokens that are words, each followed by a separator of whitespace, are
/// found again as the words of the line they make; that line is empty or
/// ends with whitespace.
pub proof fn lemma_retokenize(tokens: Seq<Seq<char>>, separators: Seq<Seq<char>>)
    requires
        separators.len() >= tokens.len(),
        forall|i: int|
            0 <= i < tokens.len() ==> (#[trigger] tokens[i]).len() > 0 && whitespace_free(tokens[i]),
        forall|i: int|
            0 <= i < tokens.len() ==> (#[trigger] separators[i]).len() > 0 && all_whitespace(
                separators[i],
            ),
    ensures
        words(interleave(tokens, separators)) == tokens,
        tokens.len() == 0 ==> interleave(tokens, separators).len() == 0,
        tokens.len() > 0 ==> interleave(tokens, separators).len() > 0 && is_whitespace(
            interleave(tokens, separators).last(),
        ),
    decreases tokens.len(),
{
    if tokens.len() > 0 {
        let earlier = tokens.drop_last();
        let token = tokens.last();
        let sep = separators[tokens.len() - 1];
        assert forall|i: int| 0 <= i < earlier.len() implies (#[trigger] earlier[i]).len() > 0
            && whitespace_free(earlier[i]) by {
            assert(earlier[i] == tokens[i]);
        }
        lemma_retokenize(earlier, separators);
        let head = interleave(earlier, separators);
        assert(interleave(tokens, separators) == (head + token) + sep);
        assert(is_whitespace(sep[0]));
        assert(is_whitespace(sep[sep.len() - 1]));
        lemma_words_concat(head + token, sep);
        lemma_words_blank(sep);
        lemma_words_concat(head, token);
        lemma_words_single(token);
        assert(words(head + token) + words(sep) == words(head + token));
        assert(earlier + seq![token] == tokens);
    }
}

/// The words of `s`, each as a string of its own.
pub fn split_words(s: &str) -> (out: Vec<String>)
    ensures
        views(out@) == words(s@),
{
    let v = chars_of(s);
    let mut out: Vec<String> = Vec::new();
    let mut i: usize = 0;
    assert(v@.skip(0) == v@);
    assert(views(out@) + words(v@) == words(v@));
    while i < v.len()
        invariant
            i <= v.len(),
            v@ == s@,
            views(out@) + words(v@.skip(i as int)) == words(v@),
        decreases v.len() - i,
    {
        if char_is_whitespace(v[i]) {
            assert(v@.skip(i as int).drop_first() == v@.skip(i + 1));
            i = i + 1;
        } else {
            let start = i;
            let mut j: usize = i + 1;
            while j < v.len() && !char_is_whitespace(v[j])
                invariant
                    start < j <= v.len(),
                    forall|k: int| start <= k < j ==> !is_whitespace(#[trigger] v@[k]),
                decreases v.len() - j,
            {
                j = j + 1;
            }
            let word = string_of(&v, start, j);
            proof {
                let tail = v@.skip(start as int);
                let n = j - start;
                assert(tail.take(n) == v@.subrange(start as int, j as int));
                assert(tail.skip(n) == v@.skip(j as int));
                lemma_run_len(tail, n);
                assert(words(tail) == seq![tail.take(n)] + words(tail.skip(n)));
                assert(views(out@.push(word)) == views(out@) + seq![word@]);
            }
            out.push(word);
            i = j;
        }
    }
    assert(v@.skip(v.len() as int) == Seq::<char>::empty());
    out
}

/// The length of `v` without its trailing whitespace.
pub fn trim_end_bound(v: &Vec<char>) -> (e: usize)
    ensures
        e <= v.len(),
        v@.take(e as int) == trim_end(v@),
{
    let mut e: usize = v.len();
    assert(v@.take(e as int) == v@);
    while e > 0 && char_is_whitespace(v[e - 1])
        invariant
            e <= v.len(),
            trim_end(v@.take(e as int)) == trim_end(v@),
        decreases e,
    {
        assert(v@.take(e as int).drop_last() == v@.take(e - 1));
        e = e - 1;
    }
    e
}

/// `s` without its trailing whitespace, as a string of its own.
pub fn trim_end_of(s: &str) -> (out: String)
    ensures
        out@ == trim_end(s@),
{
    let v = chars_of(s);
    let e = trim_end_bound(&v);
    assert(v@.subrange(0, e as int) == v@.take(e as int));
    string_of(&v, 0, e)
}

/// The bounds of `v` without leading and trailing whitespace.
pub fn trim_bounds(v: &Vec<char>) -> (r: (usize, usize))
    ensures
        r.0 <= r.1 <= v.len(),
        v@.subrange(r.0 as int, r.1 as int) == trim(v@),
{
    let e = trim_end_bound(v);
    let mut b: usize = 0;
    assert(v@.subrange(0, e as int) == v@.take(e as int));
    while b < e && char_is_whitespace(v[b])
        invariant
            b <= e <= v.len(),
            trim_start(v@.subrange(b as int, e as int)) == trim(v@),
        decreases e - b,
    {
        assert(v@.subrange(b as int, e as int).drop_first() == v@.subrange(b + 1, e as int));
        b = b + 1;
    }
    (b, e)
}

/// `s` without leading and trailing whitespace, as a string of its own.
pub fn trim_of(s: &str) -> (out: String)
    ensures
        out@ == trim(s@),
{
    let v = chars_of(s);
    let (b, e) = trim_bounds(&v);
    string_of(&v, b, e)
}

/// Position of the first `c` in `v[from..to]`, or `to` when there is none.
pub fn find_char(v: &Vec<char>, from: usize, to: usize, c: char) -> (k: usize)
    requires
        from <= to <= v.len(),
    ensures
        from <= k <= to,
        k - from == first_index(v@.subrange(from as int, to as int), c),
        k < to ==> v@[k as int] == c,
        forall|i: int| from <= i < k ==> v@[i] != c,
{
    let mut k: usize = from;
    while k < to && v[k] != c
        invariant
            from <= k <= to <= v.len(),
            forall|i: int| from <= i < k ==> v@[i] != c,
            first_index(v@.subrange(from as int, to as int), c) == (k - from) + first_index(
                v@.subrange(k as int, to as int),
                c,
            ),
        decreases to - k,
    {
        assert(v@.subrange(k as int, to as int).drop_first() == v@.subrange(k + 1, to as int));
        k = k + 1;
    }
    k
}

/// Token `i` followed by separator `i`, for every token in order.
pub fn reconstruct(tokens: &Vec<String>, separators: &Vec<String>) -> (line: String)
    ensures
        line@ == interleave(views(tokens@), views(separators@)),
{
    let mut line = String::new();
    let mut i: usize = 0;
    while i < tokens.len()
        invariant
            i <= tokens.len(),
            line@ == interleave(views(tokens@).take(i as int), views(separators@)),
        decreases tokens.len() - i,
    {
        proof {
            let next = views(tokens@).take(i + 1);
            assert(next.drop_last() == views(tokens@).take(i as int));
            assert(next.last() == tokens@[i as int]@);
        }
        line.append(tokens[i].as_str());
        if i < separators.len() {
            line.append(separators[i].as_str());
        }
        i = i + 1;
    }
    assert(views(tokens@).take(tokens.len() as int) == views(tokens@));
    line
}

/// `n` written in base ten.
pub fn decimal_string(n: usize) -> (s: String)
    ensures
        s@ == decimal(n as nat),
    decreases n,
{
    let d: usize = n % 10;
    let c = if d == 0 {
        '0'
    } else if d == 1 {
        '1'
    } else if d == 2 {
        '2'
    } else if d == 3 {
        '3'
    } else if d == 4 {
        '4'
    } else if d == 5 {
        '5'
    } else if d == 6 {
        '6'
    } else if d == 7 {
        '7'
    } else if d == 8 {
        '8'
    } else {
        '9'
    };
    if n < 10 {
        let mut s = String::new();
        s.push(c);
        assert(s@ == seq![c]);
        s
    } else {
        let mut s = decimal_string(n / 10);
        s.push(c);
        s
    }
}

} // verus!
