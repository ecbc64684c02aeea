use vstd::prelude::*;
use vstd::string::{StringExecFns, StringSliceAdditionalSpecFns};
use vstd::utf8::{decode_utf8, encode_scalar, encode_utf8, encode_utf8_decode_utf8, is_char_boundary};

verus! {

/// Whether `c` has the Unicode `White_Space` property, which is what
/// `char::is_whitespace` tests and what `str::trim` and
/// `str::split_whitespace` strip.
pub open spec fn is_white_space(c: char) -> bool {
    let u = c as u32;
    ||| 0x09 <= u <= 0x0D
    ||| u == 0x20
    ||| u == 0x85
    ||| u == 0xA0
    ||| u == 0x1680
    ||| 0x2000 <= u <= 0x200A
    ||| u == 0x2028
    ||| u == 0x2029
    ||| u == 0x202F
    ||| u == 0x205F
    ||| u == 0x3000
}

/// The views of a sequence of strings.
pub open spec fn views(v: Seq<String>) -> Seq<Seq<char>> {
    v.map_values(|s: String| s@)
}

/// `s` without its leading white space.
pub open spec fn trim_start(s: Seq<char>) -> Seq<char>
    decreases s.len(),
{
    if s.len() > 0 && is_white_space(s[0]) {
        trim_start(s.drop_first())
    } else {
        s
    }
}

/// `s` without its trailing white space.
pub open spec fn trim_end(s: Seq<char>) -> Seq<char>
    decreases s.len(),
{
    if s.len() > 0 && is_white_space(s.last()) {
        trim_end(s.drop_last())
    } else {
        s
    }
}

/// `s` without leading and trailing white space (`str::trim`).
pub open spec fn trimmed(s: Seq<char>) -> Seq<char> {
    trim_end(trim_start(s))
}

/// One left-to-right pass over `s` that cuts it at white space: the words
/// finished so far, and the word being read at the end of `s`.
pub open spec fn scan_words(s: Seq<char>) -> (Seq<Seq<char>>, Seq<char>)
    decreases s.len(),
{
    if s.len() == 0 {
        (Seq::empty(), Seq::empty())
    } else {
        let (done, cur) = scan_words(s.drop_last());
        let c = s.last();
        if is_white_space(c) {
            if cur.len() > 0 {
                (done.push(cur), Seq::empty())
            } else {
                (done, Seq::empty())
            }
        } else {
            (done, cur.push(c))
        }
    }
}

/// The maximal runs of non-white-space characters of `s`, in order
/// (`str::split_whitespace`).
pub open spec fn words(s: Seq<char>) -> Seq<Seq<char>> {
    let (done, cur) = scan_words(s);
    if cur.len() > 0 {
        done.push(cur)
    } else {
        done
    }
}

/// `s` with every space replaced by an underscore.
pub open spec fn spaces_to_underscores(s: Seq<char>) -> Seq<char> {
    s.map_values(|c: char| if c == ' ' { '_' } else { c })
}

/// The decimal digit for `d < 10`.
pub open spec fn digit_char(d: nat) -> char {
    if d == 0 { '0' }
    else if d == 1 { '1' }
    else if d == 2 { '2' }
    else if d == 3 { '3' }
    else if d == 4 { '4' }
    else if d == 5 { '5' }
    else if d == 6 { '6' }
    else if d == 7 { '7' }
    else if d == 8 { '8' }
    else { '9' }
}

/// The decimal notation of `n`, as `n.to_string()` writes it.
pub open spec fn decimal(n: nat) -> Seq<char>
    decreases n,
{
    if n < 10 {
        seq![digit_char(n)]
    } else {
        decimal(n / 10).push(digit_char(n % 10))
    }
}

/// Executable test for the `White_Space` property.
pub fn is_whitespace_char(c: char) -> (r: bool)
    ensures
        r == is_white_space(c),
{
    let u = c as u32;
    (0x09 <= u && u <= 0x0D) || u == 0x20 || u == 0x85 || u == 0xA0 || u == 0x1680 || (0x2000
        <= u && u <= 0x200A) || u == 0x2028 || u == 0x2029 || u == 0x202F || u == 0x205F || u
        == 0x3000
}

/// Appends one character to a string (`String::push`).
#[verifier::external_body]
pub(crate) fn push_char(s: &mut String, c: char)
    ensures
        final(s)@ == old(s)@.push(c),
{
    s.push(c);
}

/// Collects the characters of `s` into a vector.
pub fn chars_of(s: &str) -> (r: Vec<char>)
    ensures
        r@ == s@,
{
    let mut r: Vec<char> = Vec::new();
    for c in it: s.chars()
        invariant
            r@ == it.seq().take(it.index() as int),
    {
        r.push(c);
    }
    r
}

/// The string made of `v[from..to]`.
pub fn string_of_range(v: &Vec<char>, from: usize, to: usize) -> (r: String)
    requires
        from <= to <= v@.len(),
    ensures
        r@ == v@.subrange(from as int, to as int),
{
    let mut r = String::new();
    let mut k = from;
    while k < to
        invariant
            from <= k <= to <= v@.len(),
            r@ == v@.subrange(from as int, k as int),
        decreases to - k,
    {
        push_char(&mut r, v[k]);
        assert(v@.subrange(from as int, k + 1) =~= v@.subrange(from as int, k as int).push(v@[k as int]));
        k += 1;
    }
    r
}

/// A copy of `s` (`str::to_string`).
pub fn owned(s: &str) -> (r: String)
    ensures
        r@ == s@,
{
    s.to_owned()
}

/// `a` followed by `b`.
pub fn concat(a: &str, b: &str) -> (r: String)
    ensures
        r@ == a@ + b@,
{
    let mut r = a.to_owned();
    r.append(b);
    r
}

/// `s` with leading and trailing white space removed (`str::trim`).
pub fn trim(s: &str) -> (r: String)
    ensures
        r@ == trimmed(s@),
{
    let v = chars_of(s);
    let n = v.len();
    let mut i: usize = 0;
    assert(v@.skip(0) =~= v@);
    while i < n && is_whitespace_char(v[i])
        invariant
            0 <= i <= n,
            n == v@.len(),
            trim_start(v@) == trim_start(v@.skip(i as int)),
        decreases n - i,
    {
        assert(v@.skip(i as int).drop_first() =~= v@.skip(i + 1));
        i += 1;
    }
    assert(trim_start(v@) == v@.skip(i as int)) by {
        if i == n {
            assert(v@.skip(i as int) =~= Seq::<char>::empty());
        } else {
            assert(v@.skip(i as int)[0] == v@[i as int]);
        }
    }
    assert(v@.skip(i as int) =~= v@.subrange(i as int, n as int));
    let mut j: usize = n;
    while j > i && is_whitespace_char(v[j - 1])
        invariant
            i <= j <= n,
            n == v@.len(),
            trim_end(v@.subrange(i as int, n as int)) == trim_end(v@.subrange(i as int, j as int)),
        decreases j,
    {
        assert(v@.subrange(i as int, j as int).drop_last() =~= v@.subrange(i as int, j - 1));
        j -= 1;
    }
    assert(trim_end(v@.subrange(i as int, j as int)) == v@.subrange(i as int, j as int));
    string_of_range(&v, i, j)
}

/// The words of `s`, split at white space (`str::split_whitespace`).
pub fn split_whitespace(s: &str) -> (r: Vec<String>)
    ensures
        views(r@) == words(s@),
{
    let v = chars_of(s);
    let n = v.len();
    let mut done: Vec<String> = Vec::new();
    let mut cur = String::new();
    let mut k: usize = 0;
    assert(v@.take(0) =~= Seq::<char>::empty());
    while k < n
        invariant
            0 <= k <= n,
            n == v@.len(),
            views(done@) == scan_words(v@.take(k as int)).0,
            cur@ == scan_words(v@.take(k as int)).1,
        decreases n - k,
    {
        let c = v[k];
        assert(v@.take(k + 1).drop_last() =~= v@.take(k as int));
        assert(v@.take(k + 1).last() == c);
        if is_whitespace_char(c) {
            if !cur.as_str().is_empty() {
                let w = cur;
                let ghost old_done = done@;
                done.push(w);
                assert(views(done@) =~= views(old_done).push(w@));
                cur = String::new();
            } else {
                cur = String::new();
            }
        } else {
            push_char(&mut cur, c);
        }
        k += 1;
    }
    assert(v@.take(n as int) =~= v@);
    if !cur.as_str().is_empty() {
        let ghost old_done = done@;
        let w = cur;
        done.push(w);
        assert(views(done@) =~= views(old_done).push(w@));
    }
    done
}

/// `s` with every space replaced by an underscore (`str::replace(" ", "_")`).
pub fn underscore_spaces(s: &str) -> (r: String)
    ensures
        r@ == spaces_to_underscores(s@),
{
    let v = chars_of(s);
    let mut r = String::new();
    let mut k: usize = 0;
    while k < v.len()
        invariant
            0 <= k <= v@.len(),
            r@ == spaces_to_underscores(v@.take(k as int)),
        decreases v@.len() - k,
    {
        let c = v[k];
        if c == ' ' {
            push_char(&mut r, '_');
        } else {
            push_char(&mut r, c);
        }
        assert(spaces_to_underscores(v@.take(k + 1)) =~= spaces_to_underscores(v@.take(k as int)).push(
            if c == ' ' { '_' } else { c },
        ));
        k += 1;
    }
    assert(v@.take(v@.len() as int) =~= v@);
    r
}

/// The decimal digit for `d < 10`.
fn digit(d: u64) -> (c: char)
    requires
        d < 10,
    ensures
        c == digit_char(d as nat),
{
    if d == 0 { '0' }
    else if d == 1 { '1' }
    else if d == 2 { '2' }
    else if d == 3 { '3' }
    else if d == 4 { '4' }
    else if d == 5 { '5' }
    else if d == 6 { '6' }
    else if d == 7 { '7' }
    else if d == 8 { '8' }
    else { '9' }
}

/// The decimal notation of `n` (`n.to_string()`).
pub fn to_decimal(n: u64) -> (r: String)
    ensures
        r@ == decimal(n as nat),
    decreases n,
{
    if n < 10 {
        let mut r = String::new();
        push_char(&mut r, digit(n));
        assert(r@ =~= seq![digit_char(n as nat)]);
        r
    } else {
        let mut r = to_decimal(n / 10);
        push_char(&mut r, digit(n % 10));
        r
    }
}

/// Whether the last `n` bytes of the UTF-8 encoding of `s` can be cut off,
/// that is, whether there are that many and the cut falls between characters.
pub open spec fn can_drop_last_bytes(s: Seq<char>, n: nat) -> bool {
    encode_utf8(s).len() >= n && is_char_boundary(encode_utf8(s), encode_utf8(s).len() - n)
}

/// `s` without the last `n` bytes of its UTF-8 encoding.
pub open spec fn without_last_bytes(s: Seq<char>, n: nat) -> Seq<char> {
    decode_utf8(encode_utf8(s).subrange(0, encode_utf8(s).len() - n))
}

/// `s` without the last `n` bytes of its UTF-8 encoding (`&s[..s.len() - n]`);
/// that slice panics unless `can_drop_last_bytes(s@, n)`.
pub fn drop_last_bytes(s: &str, n: usize) -> (r: String)
    requires
        can_drop_last_bytes(s@, n as nat),
        encode_utf8(s@).len() <= usize::MAX,
    ensures
        r@ == without_last_bytes(s@, n as nat),
{
    assert(s.spec_bytes() == encode_utf8(s@));
    let cut = s.len() - n;
    let (head, _tail) = s.split_at(cut);
    proof {
        encode_utf8_decode_utf8(head@);
    }
    head.to_owned()
}

/// The UTF-8 encoding of two strings one after the other is the encoding of
/// the first followed by that of the second.
pub proof fn lemma_encode_utf8_concat(a: Seq<char>, b: Seq<char>)
    ensures
        encode_utf8(a + b) == encode_utf8(a) + encode_utf8(b),
    decreases a.len(),
{
    if a.len() == 0 {
        assert(a + b =~= b);
        assert(encode_utf8(a) =~= Seq::<u8>::empty());
        assert(encode_utf8(a) + encode_utf8(b) =~= encode_utf8(b));
    } else {
        assert((a + b).drop_first() =~= a.drop_first() + b);
        assert((a + b)[0] == a[0]);
        lemma_encode_utf8_concat(a.drop_first(), b);
        let head = encode_scalar(a[0] as u32);
        assert(encode_utf8(a + b) == head + encode_utf8(a.drop_first() + b));
        assert(encode_utf8(a) == head + encode_utf8(a.drop_first()));
        assert(head + (encode_utf8(a.drop_first()) + encode_utf8(b)) =~= (head + encode_utf8(a.drop_first())) + encode_utf8(b));
    }
}

/// The words are never empty and hold no white space, and they come from
/// one pass over the whole input.
proof fn lemma_scan_words_clean(s: Seq<char>)
    ensures
        forall|k: int| 0 <= k < scan_words(s).0.len() ==> #[trigger] scan_words(s).0[k].len() > 0,
        forall|k: int, c: int| 0 <= k < scan_words(s).0.len() && 0 <= c < scan_words(s).0[k].len() ==> !is_white_space(#[trigger] scan_words(s).0[k][c]),
        forall|c: int| 0 <= c < scan_words(s).1.len() ==> !is_white_space(#[trigger] scan_words(s).1[c]),
        (scan_words(s).0.len() > 0 || scan_words(s).1.len() > 0) == (exists|i: int| 0 <= i < s.len() && !is_white_space(#[trigger] s[i])),
    decreases s.len(),
{
    if s.len() > 0 {
        let t = s.drop_last();
        lemma_scan_words_clean(t);
        let c = s.last();
        assert forall|i: int| 0 <= i < t.len() implies t[i] == s[i] by {}
        if (exists|i: int| 0 <= i < t.len() && !is_white_space(#[trigger] t[i])) {
            let i = choose|i: int| 0 <= i < t.len() && !is_white_space(#[trigger] t[i]);
            assert(!is_white_space(s[i]));
        }
        if !is_white_space(c) {
            assert(!is_white_space(s[s.len() - 1]));
        }
        if (exists|i: int| 0 <= i < s.len() && !is_white_space(#[trigger] s[i])) {
            let i = choose|i: int| 0 <= i < s.len() && !is_white_space(#[trigger] s[i]);
            if i < t.len() {
                assert(!is_white_space(t[i]));
            }
        }
    }
}

/// The words of `s` are never empty and hold no white space.
pub proof fn law_words_clean(s: Seq<char>)
    ensures
        forall|k: int| 0 <= k < words(s).len() ==> #[trigger] words(s)[k].len() > 0,
        forall|k: int, c: int| 0 <= k < words(s).len() && 0 <= c < words(s)[k].len() ==> !is_white_space(#[trigger] words(s)[k][c]),
{
    lemma_scan_words_clean(s);
}

/// `s` has a word exactly when some character of `s` is not white space.
pub proof fn law_words_nonempty(s: Seq<char>)
    ensures
        (words(s).len() > 0) == (exists|i: int| 0 <= i < s.len() && !is_white_space(#[trigger] s[i])),
{
    lemma_scan_words_clean(s);
}

/// The strings of `ws` one after the other.
pub open spec fn concat_all(ws: Seq<Seq<char>>) -> Seq<char>
    decreases ws.len(),
{
    if ws.len() == 0 {
        Seq::empty()
    } else {
        concat_all(ws.drop_last()) + ws.last()
    }
}

/// `s` with every white-space character left out.
pub open spec fn without_white_space(s: Seq<char>) -> Seq<char>
    decreases s.len(),
{
    if s.len() == 0 {
        s
    } else if is_white_space(s.last()) {
        without_white_space(s.drop_last())
    } else {
        without_white_space(s.drop_last()).push(s.last())
    }
}

/// The finished words and the word being read, one after the other, are
/// the input without its white space.
proof fn lemma_scan_words_concat(s: Seq<char>)
    ensures
        concat_all(scan_words(s).0) + scan_words(s).1 == without_white_space(s),
    decreases s.len(),
{
    if s.len() == 0 {
        assert(concat_all(scan_words(s).0) + scan_words(s).1 =~= without_white_space(s));
    } else {
        let t = s.drop_last();
        lemma_scan_words_concat(t);
        let (done, cur) = scan_words(t);
        let c = s.last();
        if is_white_space(c) {
            if cur.len() > 0 {
                assert(done.push(cur).drop_last() =~= done);
                assert(concat_all(done.push(cur)) + Seq::<char>::empty() =~= concat_all(done) + cur);
            } else {
                assert(concat_all(done) + Seq::<char>::empty() =~= concat_all(done) + cur);
            }
        } else {
            assert(concat_all(done) + cur.push(c) =~= (concat_all(done) + cur).push(c));
        }
    }
}

/// The words of `s`, one after the other, are `s` with its white space left
/// out: splitting loses nothing but white space.
pub proof fn law_words_concat(s: Seq<char>)
    ensures
        concat_all(words(s)) == without_white_space(s),
{
    lemma_scan_words_concat(s);
    let (done, cur) = scan_words(s);
    if cur.len() > 0 {
        assert(done.push(cur).drop_last() =~= done);
    } else {
        assert(concat_all(done) + cur =~= concat_all(done));
    }
}

/// `gaps[0] + ws[0] + gaps[1] + ... + ws[n-1] + gaps[n]`: the strings of
/// `ws` with the gaps around and between them.
pub open spec fn interleave(gaps: Seq<Seq<char>>, ws: Seq<Seq<char>>) -> Seq<char>
    decreases ws.len(),
{
    if ws.len() == 0 {
        if gaps.len() > 0 {
            gaps[0]
        } else {
            Seq::empty()
        }
    } else {
        interleave(gaps.drop_last(), ws.drop_last()) + ws.last() + gaps.last()
    }
}

/// Whether every character of `s` is white space.
pub open spec fn all_white_space(s: Seq<char>) -> bool {
    forall|i: int| 0 <= i < s.len() ==> is_white_space(#[trigger] s[i])
}

/// Adding a character to the last gap adds it at the end.
proof fn lemma_interleave_grow_last_gap(gaps: Seq<Seq<char>>, ws: Seq<Seq<char>>, c: char)
    requires
        gaps.len() == ws.len() + 1,
    ensures
        interleave(gaps.update(ws.len() as int, gaps[ws.len() as int].push(c)), ws) == interleave(gaps, ws).push(c),
{
    let g2 = gaps.update(ws.len() as int, gaps[ws.len() as int].push(c));
    if ws.len() == 0 {
        assert(interleave(g2, ws) =~= interleave(gaps, ws).push(c));
    } else {
        assert(g2.drop_last() =~= gaps.drop_last());
        assert(interleave(g2, ws) =~= interleave(gaps, ws).push(c));
    }
}

/// The white space around and between the words that one pass over `s` has
/// read: `s` is those gaps and words interleaved, then the word being read;
/// every gap is white space, and every gap after a finished word is not empty.
proof fn lemma_scan_gaps(s: Seq<char>) -> (gaps: Seq<Seq<char>>)
    ensures
        gaps.len() == scan_words(s).0.len() + 1,
        forall|k: int| 0 <= k < gaps.len() ==> all_white_space(#[trigger] gaps[k]),
        forall|k: int| 0 < k < gaps.len() ==> #[trigger] gaps[k].len() > 0,
        s == interleave(gaps, scan_words(s).0) + scan_words(s).1,
    decreases s.len(),
{
    if s.len() == 0 {
        let g = seq![Seq::<char>::empty()];
        assert(s =~= interleave(g, scan_words(s).0) + scan_words(s).1);
        g
    } else {
        let t = s.drop_last();
        let g = lemma_scan_gaps(t);
        let (done, cur) = scan_words(t);
        let c = s.last();
        let n = done.len() as int;
        assert(s =~= t.push(c));
        if is_white_space(c) {
            if cur.len() > 0 {
                let g2 = g.push(seq![c]);
                let d2 = done.push(cur);
                assert(g2.drop_last() =~= g);
                assert(d2.drop_last() =~= done);
                assert(interleave(g2, d2) =~= interleave(g, done) + cur + seq![c]);
                assert(s =~= interleave(g2, d2) + Seq::<char>::empty());
                assert forall|k: int| 0 <= k < g2.len() implies all_white_space(#[trigger] g2[k]) by {
                    if k < g.len() {
                        assert(g2[k] == g[k]);
                    }
                }
                assert forall|k: int| 0 < k < g2.len() implies #[trigger] g2[k].len() > 0 by {
                    if k < g.len() {
                        assert(g2[k] == g[k]);
                    }
                }
                g2
            } else {
                let g2 = g.update(n, g[n].push(c));
                lemma_interleave_grow_last_gap(g, done, c);
                assert(cur =~= Seq::<char>::empty());
                assert(s =~= interleave(g2, done) + Seq::<char>::empty());
                assert forall|k: int| 0 <= k < g2.len() implies all_white_space(#[trigger] g2[k]) by {
                    if k != n {
                        assert(g2[k] == g[k]);
                    } else {
                        assert forall|i: int| 0 <= i < g2[k].len() implies is_white_space(#[trigger] g2[k][i]) by {
                            if i < g[n].len() {
                                assert(g2[k][i] == g[n][i]);
                            }
                        }
                    }
                }
                assert forall|k: int| 0 < k < g2.len() implies #[trigger] g2[k].len() > 0 by {
                    if k != n {
                        assert(g2[k] == g[k]);
                    }
                }
                g2
            }
        } else {
            assert(interleave(g, done) + cur.push(c) =~= (interleave(g, done) + cur).push(c));
            g
        }
    }
}

/// The words of `s` are its maximal runs of non-white-space characters:
/// `s` is the words with gaps of white space around and between them, and
/// every gap between two words holds at least one white-space character, so
/// no word is a piece of a longer run. With `law_words_clean` (words are
/// not empty and hold no white space) this fixes the words of every `s`.
pub proof fn law_words_are_maximal_runs(s: Seq<char>)
    ensures
        exists|gaps: Seq<Seq<char>>|
            #![trigger interleave(gaps, words(s))]
            gaps.len() == words(s).len() + 1
            && (forall|k: int| 0 <= k < gaps.len() ==> all_white_space(#[trigger] gaps[k]))
            && (forall|k: int| 0 < k < words(s).len() ==> #[trigger] gaps[k].len() > 0)
            && s == interleave(gaps, words(s)),
{
    let g = lemma_scan_gaps(s);
    let (done, cur) = scan_words(s);
    if cur.len() > 0 {
        let g2 = g.push(Seq::<char>::empty());
        let d2 = done.push(cur);
        assert(g2.drop_last() =~= g);
        assert(d2.drop_last() =~= done);
        assert(interleave(g2, d2) =~= interleave(g, done) + cur + Seq::<char>::empty());
        assert(s =~= interleave(g2, d2));
        assert forall|k: int| 0 <= k < g2.len() implies all_white_space(#[trigger] g2[k]) by {
            if k < g.len() {
                assert(g2[k] == g[k]);
            }
        }
        assert forall|k: int| 0 < k < d2.len() implies #[trigger] g2[k].len() > 0 by {
            assert(g2[k] == g[k]);
        }
        assert(words(s) == d2);
    } else {
        assert(s =~= interleave(g, done));
        assert(words(s) == done);
    }
}

/// Trimming leaves no white space at either end, keeps a contiguous piece
/// of the input, and changes nothing the second time.
pub proof fn law_trim(s: Seq<char>)
    ensures
        trimmed(s).len() > 0 ==> !is_white_space(trimmed(s)[0]) && !is_white_space(trimmed(s).last()),
        exists|i: int, j: int| 0 <= i <= j <= s.len() && trimmed(s) == #[trigger] s.subrange(i, j)
            && forall|k: int| 0 <= k < s.len() && !(i <= k < j) ==> is_white_space(#[trigger] s[k]),
        trimmed(trimmed(s)) == trimmed(s),
{
    lemma_trim_start(s);
    let u = trim_start(s);
    lemma_trim_end(u);
    let i = choose|i: int| 0 <= i <= s.len() && u == #[trigger] s.skip(i) && forall|k: int| 0 <= k < i ==> is_white_space(#[trigger] s[k]);
    let j = choose|j: int| 0 <= j <= u.len() && trim_end(u) == #[trigger] u.take(j) && forall|k: int| j <= k < u.len() ==> is_white_space(#[trigger] u[k]);
    assert(trimmed(s) == s.subrange(i, i + j));
    assert forall|k: int| 0 <= k < s.len() && !(i <= k < i + j) implies is_white_space(#[trigger] s[k]) by {
        if k >= i + j {
            assert(s[k] == u[k - i]);
        }
    }
    if trimmed(s).len() > 0 {
        lemma_trim_end_keeps_first(u);
        let t = trimmed(s);
        assert(trim_start(t) == t);
        assert(trim_end(t) == t);
    } else {
        assert(trim_start(trimmed(s)) == trimmed(s));
    }
}

/// Stripping leading white space drops a prefix, and leaves a string that
/// is empty or starts with a character that is not white space.
proof fn lemma_trim_start(s: Seq<char>)
    ensures
        exists|i: int| 0 <= i <= s.len() && trim_start(s) == #[trigger] s.skip(i) && forall|k: int| 0 <= k < i ==> is_white_space(#[trigger] s[k]),
        trim_start(s).len() > 0 ==> !is_white_space(trim_start(s)[0]),
        trim_start(trim_start(s)) == trim_start(s),
    decreases s.len(),
{
    if s.len() > 0 && is_white_space(s[0]) {
        lemma_trim_start(s.drop_first());
        let t = s.drop_first();
        let i = choose|i: int| 0 <= i <= t.len() && trim_start(t) == #[trigger] t.skip(i) && forall|k: int| 0 <= k < i ==> is_white_space(#[trigger] t[k]);
        assert(t.skip(i) =~= s.skip(i + 1));
        assert forall|k: int| 0 <= k < i + 1 implies is_white_space(#[trigger] s[k]) by {
            if k > 0 {
                assert(s[k] == t[k - 1]);
            }
        }
    } else {
        assert(s.skip(0) =~= s);
    }
}

/// Stripping trailing white space drops a suffix, and leaves a string that
/// is empty or ends with a character that is not white space.
proof fn lemma_trim_end(s: Seq<char>)
    ensures
        exists|j: int| 0 <= j <= s.len() && trim_end(s) == #[trigger] s.take(j) && forall|k: int| j <= k < s.len() ==> is_white_space(#[trigger] s[k]),
        trim_end(s).len() > 0 ==> !is_white_space(trim_end(s).last()),
        trim_end(trim_end(s)) == trim_end(s),
    decreases s.len(),
{
    if s.len() > 0 && is_white_space(s.last()) {
        lemma_trim_end(s.drop_last());
        let t = s.drop_last();
        let j = choose|j: int| 0 <= j <= t.len() && trim_end(t) == #[trigger] t.take(j) && forall|k: int| j <= k < t.len() ==> is_white_space(#[trigger] t[k]);
        assert(t.take(j) =~= s.take(j));
        assert forall|k: int| j <= k < s.len() implies is_white_space(#[trigger] s[k]) by {
            if k < t.len() {
                assert(s[k] == t[k]);
            }
        }
    } else {
        assert(s.take(s.len() as int) =~= s);
    }
}

/// Stripping trailing white space from a string that starts with a
/// character that is not white space keeps that first character, and
/// strips nothing more from the front.
proof fn lemma_trim_end_keeps_first(s: Seq<char>)
    requires
        s.len() > 0 ==> !is_white_space(s[0]),
    ensures
        trim_end(s).len() > 0 ==> trim_end(s)[0] == s[0],
        trim_start(trim_end(s)) == trim_end(s),
    decreases s.len(),
{
    if s.len() > 0 && is_white_space(s.last()) {
        if s.len() > 1 {
            lemma_trim_end_keeps_first(s.drop_last());
        } else {
            assert(trim_end(s.drop_last()) =~= Seq::<char>::empty());
        }
    }
}

/// Turning spaces into underscores leaves no space.
pub proof fn law_no_spaces(s: Seq<char>)
    ensures
        forall|i: int| 0 <= i < spaces_to_underscores(s).len() ==> #[trigger] spaces_to_underscores(s)[i] != ' ',
{
}

/// The code points of the Unicode `White_Space` property, one by one.
pub open spec fn white_space_code_points() -> Seq<u32> {
    seq![
        0x09u32, 0x0A, 0x0B, 0x0C, 0x0D, 0x20, 0x85, 0xA0, 0x1680, 0x2000, 0x2001, 0x2002,
        0x2003, 0x2004, 0x2005, 0x2006, 0x2007, 0x2008, 0x2009, 0x200A, 0x2028, 0x2029,
        0x202F, 0x205F, 0x3000,
    ]
}

/// A character is white space exactly when its code point is one of the
/// 25 of the Unicode `White_Space` property; so no printable ASCII
/// character but the space is.
pub proof fn law_white_space_code_points(c: char)
    ensures
        is_white_space(c) == white_space_code_points().contains(c as u32),
        0x21 <= (c as u32) <= 0x7E ==> !is_white_space(c),
{
    let u = c as u32;
    let w = white_space_code_points();
    if is_white_space(c) {
        if 0x09 <= u <= 0x0D {
            assert(w[(u - 0x09) as int] == u);
        } else if u == 0x20 {
            assert(w[5] == u);
        } else if u == 0x85 {
            assert(w[6] == u);
        } else if u == 0xA0 {
            assert(w[7] == u);
        } else if u == 0x1680 {
            assert(w[8] == u);
        } else if 0x2000 <= u <= 0x200A {
            assert(w[(u - 0x2000 + 9) as int] == u);
        } else if u == 0x2028 {
            assert(w[20] == u);
        } else if u == 0x2029 {
            assert(w[21] == u);
        } else if u == 0x202F {
            assert(w[22] == u);
        } else if u == 0x205F {
            assert(w[23] == u);
        } else {
            assert(w[24] == u);
        }
    }
}

/// The value of a decimal digit.
pub open spec fn digit_value(c: char) -> int {
    (c as u32) - ('0' as u32)
}

/// The number that the decimal digits `s` stand for.
pub open spec fn decimal_value(s: Seq<char>) -> int
    decreases s.len(),
{
    if s.len() == 0 {
        0
    } else {
        decimal_value(s.drop_last()) * 10 + digit_value(s.last())
    }
}

/// The decimal notation of `n` is made of digits `0` to `9` only, starts
/// with `0` only for zero itself, and read back in base ten is `n`.
pub proof fn law_decimal(n: nat)
    ensures
        decimal(n).len() > 0,
        forall|k: int| 0 <= k < decimal(n).len() ==> '0' <= #[trigger] decimal(n)[k] <= '9',
        decimal(n)[0] == '0' ==> n == 0 && decimal(n).len() == 1,
        decimal_value(decimal(n)) == n,
    decreases n,
{
    if n < 10 {
        let d = decimal(n);
        assert(d.drop_last() =~= Seq::<char>::empty());
        assert(decimal_value(d.drop_last()) == 0);
        assert(digit_value(digit_char(n)) == n);
        assert(decimal_value(d) == decimal_value(d.drop_last()) * 10 + digit_value(d.last()));
    } else {
        law_decimal(n / 10);
        let d = decimal(n);
        let h = decimal(n / 10);
        assert(d.drop_last() =~= h);
        assert(d[0] == h[0]);
        assert(digit_value(digit_char(n % 10)) == n % 10);
        assert(decimal_value(d) == decimal_value(h) * 10 + digit_value(d.last()));
        assert(decimal_value(d) == (n / 10) * 10 + n % 10);
        assert((n / 10) * 10 + n % 10 == n) by (nonlinear_arith);
    }
}

} // verus!
