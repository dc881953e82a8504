//! Colours: names in every Ukrainian form and in English, `#rrggbb` and `випадковий`.
use vstd::prelude::*;




use crate::builtins::{next_random, xorshift};
use crate::diagnostic::ErrorKind;
use crate::lang::Lang;
use crate::suggest::{closest, lowercase, spec_pick, to_lowercase, typo_limit};
use crate::text::{
    all_white, chars_eq, chars_of, lemma_trim_ignores_outer_white, owned, push_char, push_str, str_eq,
    trim, trimmed, word_key,
};

verus! {

/// A colour as red, green and blue.
#[derive(Debug, Clone, Copy, PartialEq, Eq, Structural)]
pub struct Rgb(pub u8, pub u8, pub u8);

/// The lower-case hexadecimal digit for `d` (0 to 15).
pub open spec fn hex_digit(d: nat) -> char {
    if d < 10 {
        crate::text::digit(d)
    } else if d == 10 {
        'a'
    } else if d == 11 {
        'b'
    } else if d == 12 {
        'c'
    } else if d == 13 {
        'd'
    } else if d == 14 {
        'e'
    } else {
        'f'
    }
}

/// A byte as two lower-case hexadecimal digits.
pub open spec fn hex_byte(b: u8) -> Seq<char> {
    seq![hex_digit((b / 16) as nat), hex_digit((b % 16) as nat)]
}

pub(crate) fn hex_char(d: u8) -> (c: char)
    requires
        d < 16,
    ensures
        c == hex_digit(d as nat),
{
    if d < 10 {
        if d == 0 {
            '0'
        } else if d == 1 {
            '1'
        } else if d == 2 {
            '2'
        } else if d == 3 {
            '3'
        } else if d == 4 {
            '4'
        } else if d == 5 {
            '5'
        } else if d == 6 {
            '6'
        } else if d == 7 {
            '7'
        } else if d == 8 {
            '8'
        } else {
            '9'
        }
    } else if d == 10 {
        'a'
    } else if d == 11 {
        'b'
    } else if d == 12 {
        'c'
    } else if d == 13 {
        'd'
    } else if d == 14 {
        'e'
    } else {
        'f'
    }
}

impl Rgb {
    /// `#rrggbb`, the way SVG writes it.
    pub open spec fn spec_hex(self) -> Seq<char> {
        seq!['#'] + hex_byte(self.0) + hex_byte(self.1) + hex_byte(self.2)
    }

    /// `#rrggbb`, the way SVG writes it.
    pub fn hex(self) -> (r: String)
        ensures
            r@ == self.spec_hex(),
    {
        let mut s = String::new();
        push_char(&mut s, '#');
        push_char(&mut s, hex_char(self.0 / 16));
        push_char(&mut s, hex_char(self.0 % 16));
        push_char(&mut s, hex_char(self.1 / 16));
        push_char(&mut s, hex_char(self.1 % 16));
        push_char(&mut s, hex_char(self.2 / 16));
        push_char(&mut s, hex_char(self.2 % 16));
        proof {
            assert(s@ =~= self.spec_hex());
        }
        s
    }
}

/// A colour with a name; the Ukrainian stem takes a gender or plural ending.
pub struct Named {
    stem: &'static str,
    /// «синій» takes soft endings (-ій, -я, -є, -і); the rest take hard ones (-ий, -а, -е, -і).
    soft: bool,
    /// English names; the first one is used in messages.
    en: &'static [&'static str],
    pub rgb: Rgb,
}

impl View for Named {
    /// Stem, soft endings or not, English names, and the colour.
    type V = (Seq<char>, bool, Seq<Seq<char>>, Rgb);

    closed spec fn view(&self) -> (Seq<char>, bool, Seq<Seq<char>>, Rgb) {
        (self.stem@, self.soft, self.en@.map_values(|e: &str| e@), self.rgb)
    }
}

/// The Ukrainian stem of the colour at place `i` of the palette. The first eight colours are
/// the bright ones `випадковий` chooses from; blue and yellow are the colours of the flag.
pub open spec fn palette_stem(i: int) -> Seq<char> {
    if i == 0 {
        "червон"@
    } else if i == 1 {
        "помаранчев"@
    } else if i == 2 {
        "жовт"@
    } else if i == 3 {
        "зелен"@
    } else if i == 4 {
        "блакитн"@
    } else if i == 5 {
        "син"@
    } else if i == 6 {
        "фіолетов"@
    } else if i == 7 {
        "рожев"@
    } else if i == 8 {
        "біл"@
    } else if i == 9 {
        "чорн"@
    } else if i == 10 {
        "сір"@
    } else {
        "коричнев"@
    }
}

/// The English names of the colour at place `i`.
pub open spec fn palette_en(i: int) -> Seq<Seq<char>> {
    if i == 0 {
        seq!["red"@]
    } else if i == 1 {
        seq!["orange"@]
    } else if i == 2 {
        seq!["yellow"@]
    } else if i == 3 {
        seq!["green"@]
    } else if i == 4 {
        seq!["lightblue"@]
    } else if i == 5 {
        seq!["blue"@]
    } else if i == 6 {
        seq!["purple"@]
    } else if i == 7 {
        seq!["pink"@]
    } else if i == 8 {
        seq!["white"@]
    } else if i == 9 {
        seq!["black"@]
    } else if i == 10 {
        seq!["gray"@, "grey"@]
    } else {
        seq!["brown"@]
    }
}

/// Whether the colour at place `i` takes soft endings.
pub open spec fn palette_soft(i: int) -> bool {
    i == 5
}

/// The colour at place `i`, as red, green and blue.
pub open spec fn palette_rgb(i: int) -> Rgb {
    if i == 0 {
        Rgb(0xef, 0x44, 0x44)
    } else if i == 1 {
        Rgb(0xf9, 0x73, 0x16)
    } else if i == 2 {
        Rgb(0xff, 0xd7, 0x00)
    } else if i == 3 {
        Rgb(0x22, 0xc5, 0x5e)
    } else if i == 4 {
        Rgb(0x38, 0xbd, 0xf8)
    } else if i == 5 {
        Rgb(0x00, 0x57, 0xb7)
    } else if i == 6 {
        Rgb(0x8b, 0x5c, 0xf6)
    } else if i == 7 {
        Rgb(0xec, 0x48, 0x99)
    } else if i == 8 {
        Rgb(0xff, 0xff, 0xff)
    } else if i == 9 {
        Rgb(0x00, 0x00, 0x00)
    } else if i == 10 {
        Rgb(0x9c, 0xa3, 0xaf)
    } else {
        Rgb(0x8b, 0x5a, 0x2b)
    }
}

/// Everything the palette says of the colour at place `i`.
pub open spec fn palette_view(i: int) -> (Seq<char>, bool, Seq<Seq<char>>, Rgb) {
    (palette_stem(i), palette_soft(i), palette_en(i), palette_rgb(i))
}

/// The colour at place `i` of the palette.
pub fn named(i: usize) -> (c: Named)
    requires
        i < 12,
    ensures
        c@ == palette_view(i as int),
{
    let c = if i == 0 {
        Named { stem: "червон", soft: false, en: &["red"], rgb: Rgb(0xef, 0x44, 0x44) }
    } else if i == 1 {
        Named { stem: "помаранчев", soft: false, en: &["orange"], rgb: Rgb(0xf9, 0x73, 0x16) }
    } else if i == 2 {
        Named { stem: "жовт", soft: false, en: &["yellow"], rgb: Rgb(0xff, 0xd7, 0x00) }
    } else if i == 3 {
        Named { stem: "зелен", soft: false, en: &["green"], rgb: Rgb(0x22, 0xc5, 0x5e) }
    } else if i == 4 {
        Named { stem: "блакитн", soft: false, en: &["lightblue"], rgb: Rgb(0x38, 0xbd, 0xf8) }
    } else if i == 5 {
        Named { stem: "син", soft: true, en: &["blue"], rgb: Rgb(0x00, 0x57, 0xb7) }
    } else if i == 6 {
        Named { stem: "фіолетов", soft: false, en: &["purple"], rgb: Rgb(0x8b, 0x5c, 0xf6) }
    } else if i == 7 {
        Named { stem: "рожев", soft: false, en: &["pink"], rgb: Rgb(0xec, 0x48, 0x99) }
    } else if i == 8 {
        Named { stem: "біл", soft: false, en: &["white"], rgb: Rgb(0xff, 0xff, 0xff) }
    } else if i == 9 {
        Named { stem: "чорн", soft: false, en: &["black"], rgb: Rgb(0x00, 0x00, 0x00) }
    } else if i == 10 {
        Named { stem: "сір", soft: false, en: &["gray", "grey"], rgb: Rgb(0x9c, 0xa3, 0xaf) }
    } else {
        Named { stem: "коричнев", soft: false, en: &["brown"], rgb: Rgb(0x8b, 0x5a, 0x2b) }
    };
    proof {
        assert(c@ =~= palette_view(i as int));
    }
    c
}

/// How many colours have a name.
pub const PALETTE_LEN: usize = 12;

/// Every named colour, in palette order.
pub fn palette() -> (r: Vec<Named>)
    ensures
        r@.len() == 12,
        forall|i: int| 0 <= i < 12 ==> #[trigger] r@[i]@ == palette_view(i),
{
    let mut out: Vec<Named> = Vec::new();
    let mut i: usize = 0;
    while i < 12
        invariant
            i <= 12,
            out@.len() == i,
            forall|k: int| 0 <= k < i ==> #[trigger] out@[k]@ == palette_view(k),
        decreases 12 - i,
    {
        out.push(named(i));
        i += 1;
    }
    out
}

/// The four endings a stem takes: soft (-ій, -я, -є, -і) or hard (-ий, -а, -е, -і).
pub open spec fn spec_endings(soft: bool) -> Seq<Seq<char>> {
    if soft {
        seq!["ій"@, "я"@, "є"@, "і"@]
    } else {
        seq!["ий"@, "а"@, "е"@, "і"@]
    }
}

/// `word` is `stem` followed by one of its four endings.
pub open spec fn spec_has_ending(word: Seq<char>, stem: Seq<char>, soft: bool) -> bool {
    &&& stem.len() <= word.len()
    &&& word.take(stem.len() as int) == stem
    &&& spec_endings(soft).contains(word.skip(stem.len() as int))
}

/// `word` is `stem` followed by one of its four endings.
fn has_ending(word: &str, stem: &str, soft: bool) -> (r: bool)
    ensures
        r == spec_has_ending(word@, stem@, soft),
{
    let w = chars_of(word);
    let st = chars_of(stem);
    if st.len() > w.len() {
        return false;
    }
    let mut i: usize = 0;
    while i < st.len()
        invariant
            w@ == word@,
            st@ == stem@,
            st@.len() <= w@.len(),
            i <= st@.len(),
            forall|k: int| 0 <= k < i ==> w@[k] == st@[k],
        decreases st@.len() - i,
    {
        if w[i] != st[i] {
            proof {
                assert(word@.take(stem@.len() as int)[i as int] != stem@[i as int]);
            }
            return false;
        }
        i += 1;
    }
    proof {
        assert(word@.take(stem@.len() as int) =~= stem@);
    }
    let mut rest: Vec<char> = Vec::new();
    let mut j = st.len();
    while j < w.len()
        invariant
            w@ == word@,
            st@.len() <= j <= w@.len(),
            rest@ == w@.subrange(st@.len() as int, j as int),
        decreases w@.len() - j,
    {
        rest.push(w[j]);
        j += 1;
        proof {
            assert(rest@ =~= w@.subrange(st@.len() as int, j as int));
        }
    }
    proof {
        assert(rest@ =~= word@.skip(stem@.len() as int));
    }
    let endings: [&str; 4] = if soft {
        ["ій", "я", "є", "і"]
    } else {
        ["ий", "а", "е", "і"]
    };
    let mut k: usize = 0;
    while k < 4
        invariant
            rest@ == word@.skip(stem@.len() as int),
            stem@.len() <= word@.len(),
            word@.take(stem@.len() as int) == stem@,
            endings@.len() == 4,
            forall|m: int| 0 <= m < 4 ==> #[trigger] endings@[m]@ == spec_endings(soft)[m],
            k <= 4,
            forall|m: int| 0 <= m < k ==> spec_endings(soft)[m] != rest@,
        decreases 4 - k,
    {
        let e = chars_of(endings[k]);
        if chars_eq(rest.as_slice(), e.as_slice()) {
            proof {
                assert(spec_endings(soft)[k as int] == rest@);
                assert(spec_endings(soft).contains(rest@));
            }
            return true;
        }
        k += 1;
    }
    proof {
        if spec_endings(soft).contains(rest@) {
            let m = choose|m: int| 0 <= m < 4 && spec_endings(soft)[m] == rest@;
            assert(spec_endings(soft)[m] == rest@);
        }
    }
    false
}

/// The masculine Ukrainian form, or the first English name, of a colour seen as
/// `(stem, soft, english names, rgb)`.
pub open spec fn spec_color_name(v: (Seq<char>, bool, Seq<Seq<char>>, Rgb), lang: Lang) -> Seq<
    char,
> {
    match lang {
        Lang::Uk => v.0 + if v.1 {
            "ій"@
        } else {
            "ий"@
        },
        Lang::En => v.2[0],
    }
}

/// Whether `word` (already lower case) names the colour: one of its English names, or its stem
/// with one of its endings.
pub open spec fn spec_color_matches(v: (Seq<char>, bool, Seq<Seq<char>>, Rgb), word: Seq<char>) -> bool {
    v.2.contains(word) || spec_has_ending(word, v.0, v.1)
}

impl Named {
    /// Every colour has an English name.
    #[verifier::type_invariant]
    spec fn has_english_name(self) -> bool {
        self.en@.len() > 0
    }

    /// The colour as `#rrggbb`.
    pub fn hex(&self) -> (r: String)
        ensures
            r@ == self@.3.spec_hex(),
    {
        self.rgb.hex()
    }

    /// The masculine Ukrainian form, or the first English name.
    pub fn name(&self, lang: Lang) -> (r: String)
        ensures
            r@ == spec_color_name(self@, lang),
    {
        proof {
            use_type_invariant(self);
        }
        match lang {
            Lang::Uk => {
                let mut s = owned(self.stem);
                push_str(&mut s, if self.soft { "ій" } else { "ий" });
                s
            },
            Lang::En => owned(self.en[0]),
        }
    }

    /// Whether `word` (already lower case) names this colour.
    fn matches(&self, word: &str) -> (r: bool)
        ensures
            r == spec_color_matches(self@, word@),
    {
        let mut i: usize = 0;
        while i < self.en.len()
            invariant
                i <= self.en@.len(),
                forall|k: int| 0 <= k < i ==> #[trigger] self.en@[k]@ != word@,
                self@.2 == self.en@.map_values(|e: &str| e@),
            decreases self.en@.len() - i,
        {
            if str_eq(self.en[i], word) {
                proof {
                    assert(self@.2[i as int] == word@);
                    assert(self@.2.contains(word@));
                }
                return true;
            }
            i += 1;
        }
        proof {
            if self@.2.contains(word@) {
                let k = choose|k: int| 0 <= k < self@.2.len() && self@.2[k] == word@;
                assert(self.en@[k]@ == word@);
            }
        }
        has_ending(word, self.stem, self.soft)
    }
}

/// What a colour argument asks for.
#[derive(Debug, Clone, Copy, PartialEq, Eq, Structural)]
pub enum ColorSpec {
    Exact(Rgb),
    Random,
}

/// The bright colours (the first `k` of the palette, up to eight) other than `current`.
pub open spec fn spec_bright(current: Rgb, k: int) -> Seq<Rgb>
    decreases k,
{
    if k <= 0 {
        Seq::empty()
    } else {
        let rest = spec_bright(current, k - 1);
        if palette_rgb(k - 1) != current {
            rest.push(palette_rgb(k - 1))
        } else {
            rest
        }
    }
}

proof fn lemma_bright(current: Rgb, k: int)
    requires
        0 <= k <= 8,
    ensures
        forall|j: int|
            0 <= j < spec_bright(current, k).len() ==> #[trigger] spec_bright(current, k)[j]
                != current && exists|i: int| 0 <= i < k && palette_rgb(i) == spec_bright(
                current,
                k,
            )[j],
        k >= 2 ==> spec_bright(current, k).len() >= 1,
    decreases k,
{
    if k > 0 {
        lemma_bright(current, k - 1);
        if k == 2 {
            assert(palette_rgb(0) != palette_rgb(1));
        }
        let rest = spec_bright(current, k - 1);
        assert forall|j: int| 0 <= j < spec_bright(current, k).len() implies #[trigger] spec_bright(
            current,
            k,
        )[j] != current && exists|i: int| 0 <= i < k && palette_rgb(i) == spec_bright(
            current,
            k,
        )[j] by {
            if j < rest.len() {
                assert(spec_bright(current, k)[j] == rest[j]);
                let i = choose|i: int| 0 <= i < k - 1 && palette_rgb(i) == rest[j];
                assert(palette_rgb(i) == spec_bright(current, k)[j]);
            } else {
                assert(palette_rgb(k - 1) == spec_bright(current, k)[j]);
            }
        }
    }
}

impl ColorSpec {
    /// The colour to use: `Random` picks a bright colour other than `current`, by the next
    /// number of the random sequence.
    pub open spec fn spec_pick(self, current: Rgb, rng: u64) -> Rgb {
        match self {
            ColorSpec::Exact(rgb) => rgb,
            ColorSpec::Random => {
                let bright = spec_bright(current, 8);
                bright[(xorshift(rng) % (bright.len() as u64)) as int]
            },
        }
    }

    /// The colour to use; `Random` picks a bright colour other than `current`.
    pub fn pick(self, current: Rgb, rng: &mut u64) -> (r: Rgb)
        ensures
            r == self.spec_pick(current, *old(rng)),
            self is Random ==> *final(rng) == xorshift(*old(rng)),
            self is Exact ==> *final(rng) == *old(rng),
            self is Random ==> r != current && exists|i: int| 0 <= i < 8 && palette_rgb(i) == r,
    {
        match self {
            ColorSpec::Exact(rgb) => rgb,
            ColorSpec::Random => {
                let mut bright: Vec<Rgb> = Vec::new();
                let mut k: usize = 0;
                while k < 8
                    invariant
                        k <= 8,
                        bright@ == spec_bright(current, k as int),
                    decreases 8 - k,
                {
                    let c = named(k).rgb;
                    if c != current {
                        bright.push(c);
                    }
                    k += 1;
                }
                proof {
                    lemma_bright(current, 8);
                }
                let n = next_random(rng);
                let at = (n % (bright.len() as u64)) as usize;
                bright[at]
            },
        }
    }
}

/// `random`, or `випадков` with a hard ending.
pub open spec fn spec_is_random(word: Seq<char>) -> bool {
    word == "random"@ || spec_has_ending(word, "випадков"@, false)
}

fn is_random(word: &str) -> (r: bool)
    ensures
        r == spec_is_random(word@),
{
    str_eq(word, "random") || has_ending(word, "випадков", false)
}

/// The value of a hexadecimal digit, in either case.
pub open spec fn hex_value(c: char) -> Option<nat> {
    if '0' <= c <= '9' {
        Some((c as nat - '0' as nat) as nat)
    } else if 'a' <= c <= 'f' {
        Some((c as nat - 'a' as nat + 10) as nat)
    } else if 'A' <= c <= 'F' {
        Some((c as nat - 'A' as nat + 10) as nat)
    } else {
        None
    }
}

/// The byte two hexadecimal digits at `i` and `i + 1` of `w` stand for.
pub open spec fn hex_pair(w: Seq<char>, i: int) -> u8 {
    (hex_value(w[i])->0 * 16 + hex_value(w[i + 1])->0) as u8
}

/// `#` and six hexadecimal digits: the colour they write.
pub open spec fn spec_hex_color(w: Seq<char>) -> Option<Rgb> {
    if w.len() == 7 && w[0] == '#' && (forall|i: int| 1 <= i < 7 ==> #[trigger] hex_value(w[i])
        is Some) {
        Some(Rgb(hex_pair(w, 1), hex_pair(w, 3), hex_pair(w, 5)))
    } else {
        None
    }
}

/// The first place at or after `from` in the palette whose colour `word` names.
pub open spec fn first_named(word: Seq<char>, from: int) -> Option<int>
    decreases 12 - from,
{
    if from < 0 || from >= 12 {
        None
    } else if spec_color_matches(palette_view(from), word) {
        Some(from)
    } else {
        first_named(word, from + 1)
    }
}

/// What a colour word (already trimmed and in lower case) asks for, if anything.
pub open spec fn spec_classify(word: Seq<char>) -> Option<ColorSpec> {
    if word.len() > 0 && word[0] == '#' && spec_hex_color(word) is Some {
        Some(ColorSpec::Exact(spec_hex_color(word)->0))
    } else if first_named(word, 0) is Some {
        Some(ColorSpec::Exact(palette_rgb(first_named(word, 0)->0)))
    } else if spec_is_random(word) {
        Some(ColorSpec::Random)
    } else {
        None
    }
}

/// Every colour name, Ukrainian then English, colour by colour.
pub open spec fn color_names() -> Seq<Seq<char>> {
    Seq::new(
        24,
        |k: int| spec_color_name(palette_view(k / 2), if k % 2 == 0 { Lang::Uk } else { Lang::En }),
    )
}

fn hex_digit_value(c: char) -> (r: Option<u8>)
    ensures
        r matches Some(v) ==> hex_value(c) == Some(v as nat) && v < 16,
        r is None ==> hex_value(c) is None,
{
    if '0' <= c && c <= '9' {
        Some(((c as u32) - ('0' as u32)) as u8)
    } else if 'a' <= c && c <= 'f' {
        Some(((c as u32) - ('a' as u32) + 10) as u8)
    } else if 'A' <= c && c <= 'F' {
        Some(((c as u32) - ('A' as u32) + 10) as u8)
    } else {
        None
    }
}

fn hex_color(w: &[char]) -> (r: Option<Rgb>)
    ensures
        r == spec_hex_color(w@),
{
    if w.len() != 7 || w[0] != '#' {
        return None;
    }
    let mut vals: Vec<u8> = Vec::new();
    let mut i: usize = 1;
    while i < 7
        invariant
            w@.len() == 7,
            1 <= i <= 7,
            vals@.len() == i - 1,
            forall|k: int| 1 <= k < i ==> #[trigger] hex_value(w@[k]) == Some(vals@[k - 1] as nat),
            forall|k: int| 0 <= k < vals@.len() ==> #[trigger] vals@[k] < 16,
        decreases 7 - i,
    {
        match hex_digit_value(w[i]) {
            Some(v) => vals.push(v),
            None => {
                return None;
            },
        }
        i += 1;
    }
    let r = Rgb(vals[0] * 16 + vals[1], vals[2] * 16 + vals[3], vals[4] * 16 + vals[5]);
    proof {
        assert(hex_value(w@[1]) == Some(vals@[0] as nat));
        assert(hex_value(w@[2]) == Some(vals@[1] as nat));
        assert(hex_value(w@[3]) == Some(vals@[2] as nat));
        assert(hex_value(w@[4]) == Some(vals@[3] as nat));
        assert(hex_value(w@[5]) == Some(vals@[4] as nat));
        assert(hex_value(w@[6]) == Some(vals@[5] as nat));
    }
    Some(r)
}

/// The place in the palette whose Ukrainian stem starts as `w` does (by its first two
/// characters, which tell the stems apart), or -1.
pub open spec fn stem_place(w: Seq<char>) -> int {
    if w.len() < 2 {
        -1
    } else if w[0] == 'ч' && w[1] == 'е' {
        0
    } else if w[0] == 'п' && w[1] == 'о' {
        1
    } else if w[0] == 'ж' && w[1] == 'о' {
        2
    } else if w[0] == 'з' && w[1] == 'е' {
        3
    } else if w[0] == 'б' && w[1] == 'л' {
        4
    } else if w[0] == 'с' && w[1] == 'и' {
        5
    } else if w[0] == 'ф' && w[1] == 'і' {
        6
    } else if w[0] == 'р' && w[1] == 'о' {
        7
    } else if w[0] == 'б' && w[1] == 'і' {
        8
    } else if w[0] == 'ч' && w[1] == 'о' {
        9
    } else if w[0] == 'с' && w[1] == 'і' {
        10
    } else if w[0] == 'к' && w[1] == 'о' {
        11
    } else {
        -1
    }
}

/// The place in the palette with `w` among its English names (told apart by
/// [`word_key`]), or -1.
pub open spec fn english_place(w: Seq<char>) -> int {
    let k = word_key(w);
    if k == (3nat, 'r', 'e', 'd') {
        0
    } else if k == (6nat, 'o', 'n', 'e') {
        1
    } else if k == (6nat, 'y', 'l', 'w') {
        2
    } else if k == (5nat, 'g', 'e', 'n') {
        3
    } else if k == (9nat, 'l', 't', 'e') {
        4
    } else if k == (4nat, 'b', 'u', 'e') {
        5
    } else if k == (6nat, 'p', 'p', 'e') {
        6
    } else if k == (4nat, 'p', 'n', 'k') {
        7
    } else if k == (5nat, 'w', 'i', 'e') {
        8
    } else if k == (5nat, 'b', 'a', 'k') {
        9
    } else if k == (4nat, 'g', 'a', 'y') {
        10
    } else if k == (4nat, 'g', 'e', 'y') {
        10
    } else if k == (5nat, 'b', 'o', 'n') {
        11
    } else {
        -1
    }
}

/// Each palette entry's stem and English names lead back to its place; stems start with a
/// Cyrillic letter and English names with a Latin one.
proof fn lemma_palette_places(j: int)
    requires
        0 <= j < 12,
    ensures
        palette_stem(j).len() >= 2,
        stem_place(palette_stem(j)) == j,
        'а' <= palette_stem(j)[0] <= 'ї',
        palette_en(j).len() >= 1,
        forall|k: int| 0 <= k < palette_en(j).len() ==> english_place(#[trigger] palette_en(j)[k]) == j
            && palette_en(j)[k].len() >= 2 && 'a' <= palette_en(j)[k][0] <= 'z',
{
    if j == 0 {
        reveal_strlit("червон");
        reveal_strlit("red");
    } else if j == 1 {
        reveal_strlit("помаранчев");
        reveal_strlit("orange");
    } else if j == 2 {
        reveal_strlit("жовт");
        reveal_strlit("yellow");
    } else if j == 3 {
        reveal_strlit("зелен");
        reveal_strlit("green");
    } else if j == 4 {
        reveal_strlit("блакитн");
        reveal_strlit("lightblue");
    } else if j == 5 {
        reveal_strlit("син");
        reveal_strlit("blue");
    } else if j == 6 {
        reveal_strlit("фіолетов");
        reveal_strlit("purple");
    } else if j == 7 {
        reveal_strlit("рожев");
        reveal_strlit("pink");
    } else if j == 8 {
        reveal_strlit("біл");
        reveal_strlit("white");
    } else if j == 9 {
        reveal_strlit("чорн");
        reveal_strlit("black");
    } else if j == 10 {
        reveal_strlit("сір");
        reveal_strlit("gray");
        reveal_strlit("grey");
        assert forall|k: int| 0 <= k < palette_en(j).len() implies english_place(#[trigger] palette_en(j)[k]) == j
            && palette_en(j)[k].len() >= 2 && 'a' <= palette_en(j)[k][0] <= 'z' by {
            assert(k == 0 || k == 1);
        }
    } else if j == 11 {
        reveal_strlit("коричнев");
        reveal_strlit("brown");
    }
}

/// A palette entry that `w` names sits where `w`'s stem or English name leads.
proof fn lemma_matches_place(j: int, w: Seq<char>)
    requires
        0 <= j < 12,
        spec_color_matches(palette_view(j), w),
    ensures
        stem_place(w) == j || english_place(w) == j,
{
    lemma_palette_places(j);
    if palette_en(j).contains(w) {
        let k = choose|k: int| 0 <= k < palette_en(j).len() && palette_en(j)[k] == w;
        assert(english_place(palette_en(j)[k]) == j);
    } else {
        let stem = palette_stem(j);
        assert(w.take(stem.len() as int)[0] == w[0]);
        assert(w.take(stem.len() as int)[1] == w[1]);
    }
}

proof fn lemma_first_named_at(w: Seq<char>, i: int, from: int)
    requires
        0 <= from <= i < 12,
        spec_color_matches(palette_view(i), w),
        stem_place(w) == i || stem_place(w) == -1,
        english_place(w) == i || english_place(w) == -1,
    ensures
        first_named(w, from) == Some(i),
    decreases i - from,
{
    if from < i {
        if spec_color_matches(palette_view(from), w) {
            lemma_matches_place(from, w);
        }
        lemma_first_named_at(w, i, from + 1);
    }
}

/// Every palette colour's name, Ukrainian or English, reads back as that colour.
pub proof fn lemma_palette_name_reads_back(i: int, lang: Lang)
    requires
        0 <= i < 12,
    ensures
        spec_classify(spec_color_name(palette_view(i), lang)) == Some(ColorSpec::Exact(palette_rgb(i))),
{
    let name = spec_color_name(palette_view(i), lang);
    lemma_palette_places(i);
    let stem = palette_stem(i);
    match lang {
        Lang::Uk => {
            let ending = if palette_soft(i) {
                "ій"@
            } else {
                "ий"@
            };
            reveal_strlit("ій");
            reveal_strlit("ий");
            assert(name == stem + ending);
            assert(name[0] == stem[0] && name[1] == stem[1]);
            assert(name.take(stem.len() as int) =~= stem);
            assert(name.skip(stem.len() as int) =~= ending);
            assert(spec_endings(palette_soft(i))[0] == ending);
            assert(stem_place(name) == i);
            assert(english_place(name) == -1);
        },
        Lang::En => {
            assert(name == palette_en(i)[0]);
            assert(palette_en(i).contains(name));
            assert(stem_place(name) == -1);
        },
    }
    assert(spec_color_matches(palette_view(i), name));
    lemma_first_named_at(name, i, 0);
}

proof fn lemma_hex_digit_value(d: nat)
    requires
        d < 16,
    ensures
        hex_value(hex_digit(d)) == Some(d),
{
}

/// A colour's `#rrggbb` text reads back as that colour.
pub proof fn lemma_hex_reads_back(rgb: Rgb)
    ensures
        spec_classify(rgb.spec_hex()) == Some(ColorSpec::Exact(rgb)),
{
    let w = rgb.spec_hex();
    lemma_hex_digit_value((rgb.0 / 16) as nat);
    lemma_hex_digit_value((rgb.0 % 16) as nat);
    lemma_hex_digit_value((rgb.1 / 16) as nat);
    lemma_hex_digit_value((rgb.1 % 16) as nat);
    lemma_hex_digit_value((rgb.2 / 16) as nat);
    lemma_hex_digit_value((rgb.2 % 16) as nat);
    assert(w.len() == 7);
    assert(w[1] == hex_digit((rgb.0 / 16) as nat) && w[2] == hex_digit((rgb.0 % 16) as nat));
    assert(w[3] == hex_digit((rgb.1 / 16) as nat) && w[4] == hex_digit((rgb.1 % 16) as nat));
    assert(w[5] == hex_digit((rgb.2 / 16) as nat) && w[6] == hex_digit((rgb.2 % 16) as nat));
    assert(forall|i: int| 1 <= i < 7 ==> #[trigger] hex_value(w[i]) is Some);
    assert(hex_pair(w, 1) == rgb.0);
    assert(hex_pair(w, 3) == rgb.1);
    assert(hex_pair(w, 5) == rgb.2);
}

/// A colour is read from its trimmed, lower-cased text: white space around it changes
/// nothing, and it reads as a colour exactly when it is a colour word or a `#rrggbb` code.
pub proof fn lemma_color_reading(pre: Seq<char>, t: Seq<char>, post: Seq<char>)
    requires
        all_white(pre),
        all_white(post),
    ensures
        spec_classify(lowercase(trimmed(pre + t + post))) == spec_classify(lowercase(trimmed(t))),
        spec_classify(lowercase(trimmed(t))) is Some <==> spec_is_color_word(trimmed(t))
            || spec_hex_color(lowercase(trimmed(t))) is Some,
{
    lemma_trim_ignores_outer_white(pre, t, post);
}

/// What a colour word (already trimmed and in lower case) asks for, if anything.
pub fn classify_color(word: &str) -> (r: Option<ColorSpec>)
    ensures
        r == spec_classify(word@),
{
    let w = chars_of(word);
    if w.len() > 0 && w[0] == '#' {
        if let Some(rgb) = hex_color(w.as_slice()) {
            return Some(ColorSpec::Exact(rgb));
        }
    }
    let mut i: usize = 0;
    while i < 12
        invariant
            i <= 12,
            first_named(word@, 0) == first_named(word@, i as int),
            !(word@.len() > 0 && word@[0] == '#' && spec_hex_color(word@) is Some),
        decreases 12 - i,
    {
        let c = named(i);
        if c.matches(word) {
            proof {
                assert(first_named(word@, i as int) == Some(i as int));
            }
            return Some(ColorSpec::Exact(c.rgb));
        }
        i += 1;
    }
    if is_random(word) {
        Some(ColorSpec::Random)
    } else {
        None
    }
}

/// Every colour name, Ukrainian then English, colour by colour.
pub fn all_color_names() -> (r: Vec<String>)
    ensures
        r@.len() == 24,
        forall|k: int| 0 <= k < 24 ==> #[trigger] r@[k]@ == color_names()[k],
{
    let mut out: Vec<String> = Vec::new();
    let mut i: usize = 0;
    while i < 12
        invariant
            i <= 12,
            out@.len() == 2 * i,
            forall|k: int| 0 <= k < 2 * i ==> #[trigger] out@[k]@ == color_names()[k],
        decreases 12 - i,
    {
        let c = named(i);
        out.push(c.name(Lang::Uk));
        out.push(c.name(Lang::En));
        i += 1;
    }
    out
}

/// Reads `"червона"`, `"red"`, `"#ff8800"` or `"випадковий"`; case and outer spaces don't matter.
/// An unknown word is an error that names the nearest colour, when one is near.
pub fn parse_color(text: &str) -> (r: Result<ColorSpec, ErrorKind>)
    ensures
        ({
            let word = lowercase(trimmed(text@));
            match r {
                Ok(c) => spec_classify(word) == Some(c),
                Err(ErrorKind::UnknownColor { name, suggestion }) => {
                    &&& spec_classify(word) is None
                    &&& name@ == trimmed(text@)
                    &&& match spec_pick(
                        lowercase(word),
                        typo_limit(word.len()),
                        color_names().map_values(|n: Seq<char>| lowercase(n)),
                    ) {
                        Some(k) => suggestion matches Some(s) && s@ == color_names()[k],
                        None => suggestion is None,
                    }
                },
                Err(_) => false,
            }
        }),
{
    let t = trim(text);
    let lowered = to_lowercase(t);
    let word = lowered.as_str();
    if let Some(c) = classify_color(word) {
        return Ok(c);
    }
    let names = all_color_names();
    let mut refs: Vec<&str> = Vec::new();
    let mut i: usize = 0;
    while i < names.len()
        invariant
            names@.len() == 24,
            forall|k: int| 0 <= k < 24 ==> #[trigger] names@[k]@ == color_names()[k],
            i <= 24,
            refs@.len() == i,
            forall|k: int| 0 <= k < i ==> #[trigger] refs@[k]@ == color_names()[k],
        decreases 24 - i,
    {
        refs.push(names[i].as_str());
        i += 1;
    }
    proof {
        assert(refs@.map_values(|c: &str| lowercase(c@)) =~= color_names().map_values(
            |n: Seq<char>| lowercase(n),
        ));
    }
    proof {
        crate::suggest::lemma_pick_range(
            lowercase(word@),
            typo_limit(word@.len()),
            refs@.map_values(|c: &str| lowercase(c@)),
        );
    }
    let suggestion = match closest(word, refs.as_slice()) {
        Some(s) => Some(owned(s)),
        None => None,
    };
    Err(ErrorKind::UnknownColor { name: owned(t), suggestion })
}

/// A colour name written without quotes, as in `колір(червоний)`.
pub open spec fn spec_is_color_word(word: Seq<char>) -> bool {
    let w = lowercase(word);
    first_named(w, 0) is Some || spec_is_random(w)
}

/// A colour name written without quotes, as in `колір(червоний)`.
pub fn is_color_word(word: &str) -> (r: bool)
    ensures
        r == spec_is_color_word(word@),
{
    let lowered = to_lowercase(word);
    let w = lowered.as_str();
    let mut i: usize = 0;
    while i < 12
        invariant
            i <= 12,
            first_named(w@, 0) == first_named(w@, i as int),
            w@ == lowercase(word@),
        decreases 12 - i,
    {
        if named(i).matches(w) {
            proof {
                assert(first_named(w@, i as int) == Some(i as int));
            }
            return true;
        }
        i += 1;
    }
    is_random(w)
}

} // verus!
