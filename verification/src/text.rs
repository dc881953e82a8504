//! Small verified helpers on text: characters of a `str`, equality, building `String`s.
use vstd::prelude::*;
use vstd::utf8::*;
use vstd::string::StrSliceExecFns;

verus! {

/// The characters of `s`, in order.
pub fn chars_of(s: &str) -> (r: Vec<char>)
    ensures
        r@ == s@,
{
    let mut out: Vec<char> = Vec::new();
    for c in it: s.chars()
        invariant
            out@ == it.seq().take(it.index() as int),
            it.seq() == s@,
    {
        out.push(c);
    }
    out
}

/// Whether two texts hold the same characters.
pub fn str_eq(a: &str, b: &str) -> (r: bool)
    ensures
        r == (a@ == b@),
{
    let va = chars_of(a);
    let vb = chars_of(b);
    chars_eq(&va, &vb)
}

/// Whether two character slices are equal.
pub fn chars_eq(a: &[char], b: &[char]) -> (r: bool)
    ensures
        r == (a@ == b@),
{
    if a.len() != b.len() {
        return false;
    }
    let mut i: usize = 0;
    while i < a.len()
        invariant
            a.len() == b.len(),
            i <= a.len(),
            forall|j: int| 0 <= j < i ==> a@[j] == b@[j],
        decreases a.len() - i,
    {
        if a[i] != b[i] {
            return false;
        }
        i += 1;
    }
    assert(a@ =~= b@);
    true
}


/// Bytes the UTF-8 encoding of `c` takes.
pub open spec fn width(c: char) -> nat {
    encode_scalar(c as u32).len()
}

/// Byte offset of the `i`-th character of `s`: the length of the UTF-8 encoding before it.
pub open spec fn byte_offset(s: Seq<char>, i: int) -> nat {
    encode_utf8(s.take(i)).len()
}

/// Length of the UTF-8 encoding of `s`.
pub open spec fn byte_len(s: Seq<char>) -> nat {
    encode_utf8(s).len()
}

pub proof fn lemma_width_bounds(c: char)
    ensures
        1 <= width(c) <= 4,
        width(c) == (if (c as u32) < 0x80 {
            1nat
        } else if (c as u32) < 0x800 {
            2nat
        } else if (c as u32) < 0x10000 {
            3nat
        } else {
            4nat
        }),
{
    broadcast use char_is_scalar;

    assert(is_scalar(c as u32));
}

/// Encoding a sequence with one more character appends that character's encoding.
pub proof fn lemma_encode_push(s: Seq<char>, c: char)
    ensures
        encode_utf8(s.push(c)) == encode_utf8(s) + encode_scalar(c as u32),
    decreases s.len(),
{
    if s.len() == 0 {
        assert(s.push(c).drop_first() =~= Seq::<char>::empty());
        assert(encode_utf8(Seq::<char>::empty()) =~= Seq::<u8>::empty());
        assert(encode_utf8(s) =~= Seq::<u8>::empty());
        assert(encode_utf8(s.push(c)) =~= encode_scalar(c as u32) + Seq::<u8>::empty());
    } else {
        lemma_encode_push(s.drop_first(), c);
        assert(s.push(c).drop_first() =~= s.drop_first().push(c));
        assert(s.push(c)[0] == s[0]);
        assert(encode_utf8(s.push(c)) =~= encode_scalar(s[0] as u32) + encode_utf8(
            s.drop_first().push(c),
        ));
    }
}

/// The offset after character `i` is its own offset plus its width.
pub proof fn lemma_offset_step(s: Seq<char>, i: int)
    requires
        0 <= i < s.len(),
    ensures
        byte_offset(s, i + 1) == byte_offset(s, i) + width(s[i]),
{
    lemma_encode_push(s.take(i), s[i]);
    assert(s.take(i + 1) =~= s.take(i).push(s[i]));
}

/// Offsets grow with the index.
pub proof fn lemma_offset_mono(s: Seq<char>, i: int, j: int)
    requires
        0 <= i <= j <= s.len(),
    ensures
        byte_offset(s, i) <= byte_offset(s, j),
        i < j ==> byte_offset(s, i) < byte_offset(s, j),
    decreases j - i,
{
    if i < j {
        lemma_offset_mono(s, i, j - 1);
        lemma_offset_step(s, j - 1);
        lemma_width_bounds(s[j - 1]);
    }
}

/// Every character takes at least one byte.
pub proof fn lemma_offset_ge_index(s: Seq<char>, i: int)
    requires
        0 <= i <= s.len(),
    ensures
        byte_offset(s, i) >= i,
    decreases i,
{
    if i > 0 {
        lemma_offset_ge_index(s, i - 1);
        lemma_offset_step(s, i - 1);
        lemma_width_bounds(s[i - 1]);
    }
}

/// The offset past the last character is the whole length.
pub proof fn lemma_offset_end(s: Seq<char>)
    ensures
        byte_offset(s, s.len() as int) == byte_len(s),
{
    assert(s.take(s.len() as int) =~= s);
}

/// Bytes the UTF-8 encoding of `c` takes (`char::len_utf8`).
pub fn char_width(c: char) -> (w: usize)
    ensures
        w == width(c),
{
    proof {
        lemma_width_bounds(c);
    }
    let u = c as u32;
    if u < 0x80 {
        1
    } else if u < 0x800 {
        2
    } else if u < 0x10000 {
        3
    } else {
        4
    }
}

/// `idx` pairs each character of `s` with its byte offset.
#[verifier::opaque]
pub open spec fn indexes(idx: Seq<(usize, char)>, s: Seq<char>) -> bool {
    &&& idx.len() == s.len()
    &&& forall|j: int|
        0 <= j < idx.len() ==> #[trigger] idx[j].1 == s[j] && idx[j].0 == byte_offset(s, j)
}

/// Each character of `s` with its byte offset, as `str::char_indices` gives them.
pub fn char_indices(s: &str) -> (r: Vec<(usize, char)>)
    requires
        byte_len(s@) <= usize::MAX,
    ensures
        r@.len() == s@.len(),
        forall|i: int|
            0 <= i < r@.len() ==> #[trigger] r@[i].1 == s@[i] && r@[i].0 == byte_offset(s@, i),
        indexes(r@, s@),
{
    let chars = chars_of(s);
    let mut out: Vec<(usize, char)> = Vec::new();
    let mut at: usize = 0;
    let mut i: usize = 0;
    proof {
        assert(s@.take(0) =~= Seq::<char>::empty());
        lemma_offset_end(s@);
    }
    while i < chars.len()
        invariant
            chars@ == s@,
            byte_len(s@) <= usize::MAX,
            i <= chars.len(),
            out@.len() == i,
            at == byte_offset(s@, i as int),
            forall|j: int|
                0 <= j < i ==> #[trigger] out@[j].1 == s@[j] && out@[j].0 == byte_offset(s@, j),
        decreases chars.len() - i,
    {
        let c = chars[i];
        out.push((at, c));
        proof {
            lemma_offset_step(s@, i as int);
            lemma_offset_mono(s@, i + 1, s@.len() as int);
            lemma_offset_end(s@);
        }
        at = at + char_width(c);
        i += 1;
    }
    proof {
        lemma_offset_end(s@);
        reveal(indexes);
    }
    out
}

/// Characters `from..to` of `s`.
pub fn substring(s: &str, from: usize, to: usize) -> (r: &str)
    requires
        from <= to <= s@.len(),
    ensures
        r@ == s@.subrange(from as int, to as int),
{
    s.substring_char(from, to)
}

/// Calls `String::push`: `c` goes on the end of `s`.
#[verifier::external_body]
pub fn push_char(s: &mut String, c: char)
    ensures
        final(s)@ == old(s)@.push(c),
{
    s.push(c)
}

/// Appends `t` to `s` (`String::push_str`).
pub fn push_str(s: &mut String, t: &str)
    ensures
        final(s)@ == old(s)@ + t@,
{
    let v = chars_of(t);
    let ghost start = s@;
    let mut i: usize = 0;
    while i < v.len()
        invariant
            v@ == t@,
            i <= v@.len(),
            s@ == start + t@.take(i as int),
        decreases v@.len() - i,
    {
        proof {
            assert(t@.take(i + 1) =~= t@.take(i as int).push(v@[i as int]));
        }
        push_char(s, v[i]);
        i += 1;
    }
    proof {
        assert(t@.take(v@.len() as int) =~= t@);
    }
}

/// A `String` holding `t`.
pub fn owned(t: &str) -> (r: String)
    ensures
        r@ == t@,
{
    let mut s = String::new();
    push_str(&mut s, t);
    proof {
        assert(Seq::<char>::empty() + t@ =~= t@);
    }
    s
}

/// A `String` holding the characters of `v`.
pub fn from_chars(v: &[char]) -> (r: String)
    ensures
        r@ == v@,
{
    let mut s = String::new();
    let mut i: usize = 0;
    while i < v.len()
        invariant
            i <= v@.len(),
            s@ == v@.take(i as int),
        decreases v@.len() - i,
    {
        proof {
            assert(v@.take(i + 1) =~= v@.take(i as int).push(v@[i as int]));
        }
        push_char(&mut s, v[i]);
        i += 1;
    }
    proof {
        assert(v@.take(v@.len() as int) =~= v@);
    }
    s
}

/// The decimal digit for `d` (0 to 9).
pub open spec fn digit(d: nat) -> char {
    if d == 0 {
        '0'
    } else if d == 1 {
        '1'
    } else if d == 2 {
        '2'
    } else if d == 3 {
        '3'
    } else if d == 4 {
        '4'
    } else if d == 5 {
        '5'
    } else if d == 6 {
        '6'
    } else if d == 7 {
        '7'
    } else if d == 8 {
        '8'
    } else {
        '9'
    }
}

/// `n` written in decimal, without leading zeros (`0` for zero).
pub open spec fn decimal(n: nat) -> Seq<char>
    decreases n,
{
    if n < 10 {
        seq![digit(n)]
    } else {
        decimal(n / 10).push(digit(n % 10))
    }
}

fn digit_char(d: u64) -> (c: char)
    requires
        d < 10,
    ensures
        c == digit(d as nat),
{
    if d == 0 {
        '0'
    } else if d == 1 {
        '1'
    } else if d == 2 {
        '2'
    } else if d == 3 {
        '3'
    } else if d == 4 {
        '4'
    } else if d == 5 {
        '5'
    } else if d == 6 {
        '6'
    } else if d == 7 {
        '7'
    } else if d == 8 {
        '8'
    } else {
        '9'
    }
}

/// Appends `n` in decimal to `s`.
pub fn push_decimal(s: &mut String, n: u64)
    ensures
        final(s)@ == old(s)@ + decimal(n as nat),
    decreases n,
{
    if n < 10 {
        push_char(s, digit_char(n));
        proof {
            assert(old(s)@.push(digit(n as nat)) =~= old(s)@ + decimal(n as nat));
        }
    } else {
        push_decimal(s, n / 10);
        push_char(s, digit_char(n % 10));
        proof {
            assert(old(s)@ + decimal((n / 10) as nat) + seq![digit((n % 10) as nat)] =~= old(s)@
                + decimal(n as nat));
        }
    }
}

/// `n` in decimal, with a minus sign when negative.
pub open spec fn signed_decimal(n: int) -> Seq<char> {
    if n < 0 {
        seq!['-'] + decimal((-n) as nat)
    } else {
        decimal(n as nat)
    }
}

/// Appends `n` in decimal to `s`, with a minus sign when negative.
pub fn push_signed(s: &mut String, n: i64)
    ensures
        final(s)@ == old(s)@ + signed_decimal(n as int),
{
    if n < 0 {
        push_char(s, '-');
        let m: u64 = if n == i64::MIN {
            9223372036854775808u64
        } else {
            (-n) as u64
        };
        push_decimal(s, m);
        proof {
            assert(old(s)@.push('-') + decimal(m as nat) =~= old(s)@ + (seq!['-'] + decimal(
                m as nat,
            )));
        }
    } else {
        push_decimal(s, n as u64);
    }
}

/// Unicode's White_Space property, which `char::is_whitespace` and `str::trim` go by.
pub open spec fn whitespace(c: char) -> bool {
    let n = c as u32;
    ||| 0x9 <= n <= 0xd
    ||| n == 0x20
    ||| n == 0x85
    ||| n == 0xa0
    ||| n == 0x1680
    ||| 0x2000 <= n <= 0x200a
    ||| n == 0x2028
    ||| n == 0x2029
    ||| n == 0x202f
    ||| n == 0x205f
    ||| n == 0x3000
}

/// Whether `c` is white space (`char::is_whitespace`).
pub fn is_whitespace(c: char) -> (r: bool)
    ensures
        r == whitespace(c),
{
    let n = c as u32;
    (0x9 <= n && n <= 0xd) || n == 0x20 || n == 0x85 || n == 0xa0 || n == 0x1680 || (0x2000 <= n
        && n <= 0x200a) || n == 0x2028 || n == 0x2029 || n == 0x202f || n == 0x205f || n == 0x3000
}

/// The first index at or after `i` whose character is not white space, or the end.
pub open spec fn skip_white(s: Seq<char>, i: int) -> int
    decreases s.len() - i,
{
    if i < 0 || i >= s.len() {
        s.len() as int
    } else if !whitespace(s[i]) {
        i
    } else {
        skip_white(s, i + 1)
    }
}

/// Where `s.take(j)` ends once its trailing white space is gone.
pub open spec fn back_white(s: Seq<char>, j: int) -> int
    decreases j,
{
    if j <= 0 {
        0
    } else if !whitespace(s[j - 1]) {
        j
    } else {
        back_white(s, j - 1)
    }
}

/// `s` without its leading and trailing white space.
pub open spec fn trimmed(s: Seq<char>) -> Seq<char> {
    let a = skip_white(s, 0);
    let b = back_white(s, s.len() as int);
    if a < b {
        s.subrange(a, b)
    } else {
        seq![]
    }
}

/// `s` without its leading and trailing white space (`str::trim`).
pub fn trim(s: &str) -> (r: &str)
    ensures
        r@ == trimmed(s@),
{
    let cs = chars_of(s);
    let n = cs.len();
    let mut a: usize = 0;
    while a < n && is_whitespace(cs[a])
        invariant
            cs@ == s@,
            n == s@.len(),
            a <= n,
            skip_white(s@, 0) == skip_white(s@, a as int),
        decreases n - a,
    {
        a += 1;
    }
    let mut b: usize = n;
    while b > 0 && is_whitespace(cs[b - 1])
        invariant
            cs@ == s@,
            n == s@.len(),
            b <= n,
            back_white(s@, n as int) == back_white(s@, b as int),
        decreases b,
    {
        b -= 1;
    }
    if a < b {
        substring(s, a, b)
    } else {
        let e = substring(s, 0, 0);
        assert(e@ =~= Seq::<char>::empty());
        e
    }
}

/// `skip_white(s, i)` is the first index at or after `i` that is not white space, or the end.
pub proof fn lemma_skip_white(s: Seq<char>, i: int)
    requires
        0 <= i <= s.len(),
    ensures
        i <= skip_white(s, i) <= s.len(),
        forall|k: int| i <= k < skip_white(s, i) ==> whitespace(#[trigger] s[k]),
        skip_white(s, i) < s.len() ==> !whitespace(s[skip_white(s, i)]),
    decreases s.len() - i,
{
    if i < s.len() && whitespace(s[i]) {
        lemma_skip_white(s, i + 1);
    }
}

/// `back_white(s, j)` is the end of `s.take(j)` without its trailing white space.
pub proof fn lemma_back_white(s: Seq<char>, j: int)
    requires
        0 <= j <= s.len(),
    ensures
        0 <= back_white(s, j) <= j,
        forall|k: int| back_white(s, j) <= k < j ==> whitespace(#[trigger] s[k]),
        back_white(s, j) > 0 ==> !whitespace(s[back_white(s, j) - 1]),
    decreases j,
{
    if j > 0 && whitespace(s[j - 1]) {
        lemma_back_white(s, j - 1);
    }
}

/// Every character of `s` is white space.
pub open spec fn all_white(s: Seq<char>) -> bool {
    forall|k: int| 0 <= k < s.len() ==> whitespace(#[trigger] s[k])
}

/// A text trims to nothing exactly when it is all white space.
pub proof fn lemma_trimmed_blank(s: Seq<char>)
    ensures
        trimmed(s).len() == 0 <==> all_white(s),
{
    lemma_skip_white(s, 0);
    lemma_back_white(s, s.len() as int);
    let a = skip_white(s, 0);
    let b = back_white(s, s.len() as int);
    if a < s.len() {
        assert(!whitespace(s[a]));
        assert(b > a) by {
            if b <= a {
                assert(whitespace(s[a]));
            }
        }
    }
}

/// White space around a text does not change what it trims to.
pub proof fn lemma_trim_ignores_outer_white(pre: Seq<char>, s: Seq<char>, post: Seq<char>)
    requires
        all_white(pre),
        all_white(post),
    ensures
        trimmed(pre + s + post) == trimmed(s),
{
    let t = pre + s + post;
    let p = pre.len() as int;
    lemma_skip_white(s, 0);
    lemma_back_white(s, s.len() as int);
    lemma_skip_white(t, 0);
    lemma_back_white(t, t.len() as int);
    let a = skip_white(s, 0);
    let b = back_white(s, s.len() as int);
    let at = skip_white(t, 0);
    let bt = back_white(t, t.len() as int);
    assert forall|k: int| 0 <= k < s.len() implies t[p + k] == s[k] by {}
    if a < s.len() {
        // s has a visible character: its first and last ones are t's too.
        assert(at == p + a) by {
            if at < p + a {
                if at < p {
                    assert(t[at] == pre[at]);
                } else {
                    assert(t[at] == s[at - p]);
                }
            }
            if at > p + a {
                assert(t[p + a] == s[a]);
            }
        }
        assert(b > a) by {
            if b <= a {
                assert(whitespace(s[a]));
            }
        }
        assert(bt == p + b) by {
            if bt > p + b {
                let k = bt - 1;
                if k >= p + s.len() {
                    assert(t[k] == post[k - p - s.len()]);
                } else {
                    assert(t[k] == s[k - p]);
                }
            }
            if bt < p + b {
                assert(t[p + b - 1] == s[b - 1]);
            }
        }
        assert(t.subrange(at, bt) =~= s.subrange(a, b));
    } else {
        // s is all white space, and so is t.
        assert forall|k: int| 0 <= k < t.len() implies whitespace(#[trigger] t[k]) by {
            if k < p {
                assert(t[k] == pre[k]);
            } else if k < p + s.len() {
                assert(t[k] == s[k - p]);
            } else {
                assert(t[k] == post[k - p - s.len()]);
            }
        }
        lemma_trimmed_blank(t);
        lemma_trimmed_blank(s);
    }
}

/// A word's length and its first, middle and last characters: enough to tell apart the words
/// of a small fixed table without reading them whole.
pub open spec fn word_key(w: Seq<char>) -> (nat, char, char, char) {
    (w.len(), w[0], w[(w.len() / 2) as int], w[w.len() - 1])
}

} // verus!
