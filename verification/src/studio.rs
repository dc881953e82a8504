//! What Yu Studio, the playground in the browser, reads: JSON about a run, about the words of
//! the language and about the library, and positions counted the way the editor counts them.
use vstd::prelude::*;
use crate::builtins::NAMES;
use crate::diagnostic::{at_boundary, Diagnostic};
use crate::draw::{hex_char, hex_digit, hex_value, palette, palette_rgb, palette_view, spec_color_name, Named};
use crate::keywords::SPELLINGS;
use crate::lang::Lang;
use crate::library::{
    Entry, entries, lemma_row_entry, row_example, row_form, row_name, row_text, Section, ENTRY_COUNT,
    ROWS,
};
use crate::text::{
    byte_len, byte_offset, char_indices, chars_of, decimal, lemma_offset_mono, lemma_offset_step,
    lemma_width_bounds, push_char, push_decimal, push_str, width,
};

verus! {

/// Loop iterations and calls a program in the Studio may make before it is stopped.
pub const STEP_BUDGET: u64 = 10_000_000;

/// The version the Studio shows.
pub const VERSION: &'static str = "1.0.0";

/// A character inside a JSON string literal.
pub open spec fn json_char(c: char) -> Seq<char> {
    if c == '"' {
        seq!['\\', '"']
    } else if c == '\\' {
        seq!['\\', '\\']
    } else if c == '\n' {
        seq!['\\', 'n']
    } else if c == '\r' {
        seq!['\\', 'r']
    } else if c == '\t' {
        seq!['\\', 't']
    } else if (c as u32) < 0x20 {
        seq!['\\', 'u', '0', '0', hex_digit((c as u32 / 16) as nat), hex_digit((c as u32 % 16) as nat)]
    } else {
        seq![c]
    }
}

/// The characters of `s` as they stand inside a JSON string literal.
pub open spec fn json_body(s: Seq<char>) -> Seq<char>
    decreases s.len(),
{
    if s.len() == 0 {
        seq![]
    } else {
        json_body(s.drop_last()) + json_char(s.last())
    }
}

/// Text as a JSON string literal.
pub open spec fn spec_json_str(s: Seq<char>) -> Seq<char> {
    seq!['"'] + json_body(s) + seq!['"']
}

/// Appends `s` as a JSON string literal.
fn push_json(out: &mut String, s: &str)
    ensures
        final(out)@ == old(out)@ + spec_json_str(s@),
{
    let cs = chars_of(s);
    let ghost start = out@;
    push_char(out, '"');
    let mut i: usize = 0;
    while i < cs.len()
        invariant
            cs@ == s@,
            i <= cs.len(),
            out@ == start + seq!['"'] + json_body(s@.take(i as int)),
        decreases cs.len() - i,
    {
        let c = cs[i];
        let ghost before = out@;
        if c == '"' {
            push_char(out, '\\');
            push_char(out, '"');
        } else if c == '\\' {
            push_char(out, '\\');
            push_char(out, '\\');
        } else if c == '\n' {
            push_char(out, '\\');
            push_char(out, 'n');
        } else if c == '\r' {
            push_char(out, '\\');
            push_char(out, 'r');
        } else if c == '\t' {
            push_char(out, '\\');
            push_char(out, 't');
        } else if (c as u32) < 0x20 {
            let v = c as u32;
            push_char(out, '\\');
            push_char(out, 'u');
            push_char(out, '0');
            push_char(out, '0');
            push_char(out, hex_char((v / 16) as u8));
            push_char(out, hex_char((v % 16) as u8));
        } else {
            push_char(out, c);
        }
        proof {
            assert(out@ =~= before + json_char(c));
            assert(s@.take(i + 1).drop_last() =~= s@.take(i as int));
        }
        i += 1;
    }
    push_char(out, '"');
    proof {
        assert(s@.take(cs.len() as int) =~= s@);
        assert(out@ =~= start + spec_json_str(s@));
    }
}

/// Text as a JSON string literal.
pub fn json_str(s: &str) -> (r: String)
    ensures
        r@ == spec_json_str(s@),
{
    let mut out = String::new();
    push_json(&mut out, s);
    proof {
        assert(out@ =~= spec_json_str(s@));
    }
    out
}

/// Whether `c` stands for itself inside a JSON string literal.
pub open spec fn json_plain(c: char) -> bool {
    c != '"' && c != '\\' && (c as u32) >= 0x20
}

proof fn lemma_json_body_append(a: Seq<char>, b: Seq<char>)
    ensures
        json_body(a + b) == json_body(a) + json_body(b),
    decreases b.len(),
{
    if b.len() == 0 {
        assert(a + b =~= a);
    } else {
        lemma_json_body_append(a, b.drop_last());
        assert((a + b).drop_last() =~= a + b.drop_last());
    }
}

/// Text with nothing to escape stands in a JSON string literal as it is.
pub proof fn lemma_json_plain_text_unchanged(s: Seq<char>)
    requires
        forall|k: int| 0 <= k < s.len() ==> json_plain(#[trigger] s[k]),
    ensures
        json_body(s) == s,
        spec_json_str(s) == seq!['"'] + s + seq!['"'],
    decreases s.len(),
{
    if s.len() > 0 {
        lemma_json_plain_text_unchanged(s.drop_last());
        assert(s =~= s.drop_last().push(s.last()));
    }
}

/// A JSON string literal of ours is quoted and holds no control character.
pub proof fn lemma_json_str_shape(s: Seq<char>)
    ensures
        spec_json_str(s).len() >= 2,
        spec_json_str(s)[0] == '"',
        spec_json_str(s).last() == '"',
        forall|k: int| 0 <= k < spec_json_str(s).len() ==> (#[trigger] spec_json_str(s)[k] as u32) >= 0x20,
{
    lemma_json_body_printable(s);
    let j = spec_json_str(s);
    assert forall|k: int| 0 <= k < j.len() implies (#[trigger] j[k] as u32) >= 0x20 by {
        if 0 < k < j.len() - 1 {
            assert(j[k] == json_body(s)[k - 1]);
        }
    }
}

proof fn lemma_json_body_printable(s: Seq<char>)
    ensures
        forall|k: int| 0 <= k < json_body(s).len() ==> (#[trigger] json_body(s)[k] as u32) >= 0x20,
    decreases s.len(),
{
    if s.len() > 0 {
        lemma_json_body_printable(s.drop_last());
        let b = json_body(s.drop_last());
        let c = json_char(s.last());
        assert forall|k: int| 0 <= k < c.len() implies (#[trigger] c[k] as u32) >= 0x20 by {}
        assert forall|k: int| 0 <= k < json_body(s).len() implies (#[trigger] json_body(s)[k] as u32)
            >= 0x20 by {
            if k < b.len() {
                assert(json_body(s)[k] == b[k]);
            } else {
                assert(json_body(s)[k] == c[k - b.len()]);
            }
        }
    }
}

/// The value of the four hexadecimal digits of a `\u` escape at the front of `e`, if it is one.
pub open spec fn hex4(e: Seq<char>) -> Option<nat> {
    if e.len() >= 6 && hex_value(e[2]) is Some && hex_value(e[3]) is Some && hex_value(e[4]) is Some
        && hex_value(e[5]) is Some {
        Some(
            ((hex_value(e[2])->0 * 16 + hex_value(e[3])->0) * 16 + hex_value(e[4])->0) * 16
                + hex_value(e[5])->0,
        )
    } else {
        None
    }
}

/// The character a one-letter escape `\x` stands for.
pub open spec fn unescape(x: char) -> char {
    if x == 'n' {
        '\n'
    } else if x == 'r' {
        '\r'
    } else if x == 't' {
        '\t'
    } else if x == 'b' {
        '\u{8}'
    } else if x == 'f' {
        '\u{c}'
    } else {
        x
    }
}

/// Reads the inside of a JSON string literal back into text, escape by escape (`\u` escapes
/// of surrogate pairs aside, which [`json_str`] never writes).
pub open spec fn json_decode(e: Seq<char>) -> Seq<char>
    decreases e.len(),
{
    if e.len() == 0 {
        seq![]
    } else if e[0] == '\\' && e.len() >= 2 {
        if e[1] == 'u' && hex4(e) is Some {
            seq![(hex4(e)->0) as char] + json_decode(e.subrange(6, e.len() as int))
        } else {
            seq![unescape(e[1])] + json_decode(e.subrange(2, e.len() as int))
        }
    } else {
        seq![e[0]] + json_decode(e.subrange(1, e.len() as int))
    }
}

proof fn lemma_decode_char(c: char, rest: Seq<char>)
    ensures
        json_decode(json_char(c) + rest) == seq![c] + json_decode(rest),
{
    let e = json_char(c) + rest;
    let n = json_char(c).len() as int;
    assert(e.subrange(n, e.len() as int) =~= rest);
    if (c as u32) < 0x20 && c != '\n' && c != '\r' && c != '\t' {
        let v = c as u32;
        assert(hex_value(hex_digit((v / 16) as nat)) == Some((v / 16) as nat));
        assert(hex_value(hex_digit((v % 16) as nat)) == Some((v % 16) as nat));
        assert(hex4(e) == Some(v as nat));
    }
}

/// Decoding the inside of one of our JSON string literals gives the text back.
pub proof fn lemma_json_roundtrip(s: Seq<char>)
    ensures
        json_decode(json_body(s)) == s,
    decreases s.len(),
{
    if s.len() > 0 {
        let r = s.subrange(1, s.len() as int);
        assert(s =~= seq![s[0]] + r);
        lemma_json_body_append(seq![s[0]], r);
        let one = seq![s[0]];
        assert(one.drop_last() =~= Seq::<char>::empty());
        assert(json_body(one.drop_last()) == Seq::<char>::empty());
        assert(json_body(one) =~= json_char(s[0]));
        lemma_decode_char(s[0], json_body(r));
        lemma_json_roundtrip(r);
    }
}

/// How many UTF-16 units `c` takes.
pub open spec fn utf16_width(c: char) -> nat {
    if (c as u32) < 0x10000 {
        1
    } else {
        2
    }
}

/// The UTF-16 units of the characters of `s` from index `k` on that start before `byte`,
/// up to the first that does not.
pub open spec fn utf16_before(s: Seq<char>, byte: int, k: int) -> nat
    decreases s.len() - k,
{
    if k < 0 || k >= s.len() || byte_offset(s, k) >= byte {
        0
    } else {
        utf16_width(s[k]) + utf16_before(s, byte, k + 1)
    }
}

/// The UTF-16 position of a byte offset — the unit the editor counts in.
pub fn utf16_offset(src: &str, byte: usize) -> (r: usize)
    requires
        byte_len(src@) <= usize::MAX,
    ensures
        r == utf16_before(src@, byte as int, 0),
{
    let ghost s = src@;
    let idx = char_indices(src);
    let mut sum: usize = 0;
    let mut k: usize = 0;
    while k < idx.len() && idx[k].0 < byte
        invariant
            idx@.len() == s.len(),
            forall|i: int|
                0 <= i < idx@.len() ==> #[trigger] idx@[i].1 == s[i] && idx@[i].0 == byte_offset(s, i),
            byte_len(s) <= usize::MAX,
            k <= s.len(),
            sum <= byte_offset(s, k as int),
            utf16_before(s, byte as int, 0) == sum + utf16_before(s, byte as int, k as int),
        decreases s.len() - k,
    {
        let c = idx[k].1;
        proof {
            assert(idx@[k as int].1 == s[k as int]);
            lemma_offset_step(s, k as int);
            lemma_offset_mono(s, k + 1, s.len() as int);
            crate::text::lemma_offset_end(s);
            lemma_width_bounds(c);
        }
        let w: usize = if (c as u32) < 0x10000 {
            1
        } else {
            2
        };
        sum = sum + w;
        k += 1;
    }
    proof {
        if k < idx.len() {
            assert(idx@[k as int].1 == s[k as int]);
        }
    }
    sum
}

/// Items joined by `sep`.
pub open spec fn join_with(items: Seq<Seq<char>>, sep: Seq<char>) -> Seq<char>
    decreases items.len(),
{
    if items.len() == 0 {
        seq![]
    } else if items.len() == 1 {
        items[0]
    } else {
        join_with(items.drop_last(), sep) + sep + items.last()
    }
}

proof fn lemma_join_push(items: Seq<Seq<char>>, sep: Seq<char>, x: Seq<char>)
    ensures
        join_with(items.push(x), sep) == if items.len() == 0 {
            x
        } else {
            join_with(items, sep) + sep + x
        },
{
    assert(items.push(x).drop_last() =~= items);
}

/// The JSON of row `i` of `NAMES`: both names, both ways to write it and both help texts.
#[verifier::opaque]
pub open spec fn builtin_item(i: int) -> Seq<char> {
    let b = NAMES[i].0;
    "{\"uk\":"@ + spec_json_str(NAMES[i].1@) + ",\"en\":"@ + spec_json_str(NAMES[i].2@)
        + ",\"sig_uk\":"@ + spec_json_str(b.spec_signature(Lang::Uk)) + ",\"sig_en\":"@
        + spec_json_str(b.spec_signature(Lang::En)) + ",\"doc_uk\":"@ + spec_json_str(
        b.spec_doc(Lang::Uk),
    ) + ",\"doc_en\":"@ + spec_json_str(b.spec_doc(Lang::En)) + "}"@
}

/// Every keyword spelling, then every built-in with its help, then the version.
pub open spec fn spec_names_json() -> Seq<char> {
    "{\"keywords\":["@ + join_with(Seq::new(43, |i: int| spec_json_str(SPELLINGS[i].0@)), ","@)
        + "],\"builtins\":["@ + join_with(Seq::new(24, |i: int| builtin_item(i)), ","@)
        + "],\"version\":"@ + spec_json_str(VERSION@) + "}"@
}

/// Keywords and built-ins with their help, as JSON for the editor.
pub fn names_json() -> (r: String)
    ensures
        r@ == spec_names_json(),
{
    let ghost kws = Seq::new(43, |i: int| spec_json_str(SPELLINGS[i].0@));
    let ghost bs = Seq::new(24, |i: int| builtin_item(i));
    let mut out = String::new();
    push_str(&mut out, "{\"keywords\":[");
    let ghost head = out@;
    let mut i: usize = 0;
    while i < 43
        invariant
            i <= 43,
            kws == Seq::new(43, |i: int| spec_json_str(SPELLINGS[i].0@)),
            out@ == head + join_with(kws.take(i as int), ","@),
        decreases 43 - i,
    {
        let ghost before = out@;
        if i > 0 {
            push_str(&mut out, ",");
        }
        push_json(&mut out, SPELLINGS[i].0);
        proof {
            lemma_join_push(kws.take(i as int), ","@, kws[i as int]);
            assert(kws.take(i as int).push(kws[i as int]) =~= kws.take(i + 1));
            assert(out@ =~= head + join_with(kws.take(i + 1), ","@));
        }
        i += 1;
    }
    push_str(&mut out, "],\"builtins\":[");
    let ghost head2 = out@;
    let mut j: usize = 0;
    while j < 24
        invariant
            j <= 24,
            bs == Seq::new(24, |i: int| builtin_item(i)),
            out@ == head2 + join_with(bs.take(j as int), ","@),
        decreases 24 - j,
    {
        let ghost before = out@;
        if j > 0 {
            push_str(&mut out, ",");
        }
        push_builtin_item(&mut out, j);
        proof {
            lemma_join_push(bs.take(j as int), ","@, bs[j as int]);
            assert(bs.take(j as int).push(bs[j as int]) =~= bs.take(j + 1));
            assert(out@ =~= head2 + join_with(bs.take(j + 1), ","@));
        }
        j += 1;
    }
    push_str(&mut out, "],\"version\":");
    push_json(&mut out, VERSION);
    push_str(&mut out, "}");
    proof {
        assert(kws.take(43) =~= kws);
        assert(bs.take(24) =~= bs);
        assert(out@ =~= spec_names_json());
    }
    out
}

/// The JSON of row `i` of the library: name, form, text and example, in both languages.
#[verifier::opaque]
pub open spec fn entry_item(i: int) -> Seq<char> {
    "{\"uk\":"@ + spec_json_str(row_name(i, Lang::Uk)) + ",\"en\":"@ + spec_json_str(
        row_name(i, Lang::En),
    ) + ",\"form_uk\":"@ + spec_json_str(row_form(i, Lang::Uk)) + ",\"form_en\":"@
        + spec_json_str(row_form(i, Lang::En)) + ",\"text_uk\":"@ + spec_json_str(
        row_text(i, Lang::Uk),
    ) + ",\"text_en\":"@ + spec_json_str(row_text(i, Lang::En)) + ",\"ex_uk\":"@
        + spec_json_str(row_example(i, Lang::Uk)) + ",\"ex_en\":"@ + spec_json_str(
        row_example(i, Lang::En),
    ) + "}"@
}

/// The JSON of the rows before `k` that belong to `s`, in order.
pub open spec fn section_items(s: Section, k: int) -> Seq<Seq<char>>
    decreases k,
{
    if k <= 0 {
        seq![]
    } else if ROWS[k - 1].0 == s {
        section_items(s, k - 1).push(entry_item(k - 1))
    } else {
        section_items(s, k - 1)
    }
}

/// The JSON of a section: its id, its titles and its entries.
#[verifier::opaque]
pub open spec fn section_item(s: Section) -> Seq<char> {
    "{\"id\":"@ + spec_json_str(s.spec_id()) + ",\"uk\":"@ + spec_json_str(s.spec_title(Lang::Uk))
        + ",\"en\":"@ + spec_json_str(s.spec_title(Lang::En)) + ",\"entries\":["@ + join_with(
        section_items(s, 37),
        ","@,
    ) + "]}"@
}

/// The JSON of colour `i` of the palette: its names and its `#rrggbb`.
#[verifier::opaque]
pub open spec fn color_item(i: int) -> Seq<char> {
    "{\"uk\":"@ + spec_json_str(spec_color_name(palette_view(i), Lang::Uk)) + ",\"en\":"@
        + spec_json_str(spec_color_name(palette_view(i), Lang::En)) + ",\"hex\":"@
        + spec_json_str(palette_rgb(i).spec_hex()) + "}"@
}

/// Every section with its entries, then every named colour.
pub open spec fn spec_library_json() -> Seq<char> {
    "{\"sections\":["@ + join_with(Seq::new(7, |k: int| section_item(Section::ALL[k])), ","@)
        + "],\"colors\":["@ + join_with(Seq::new(12, |i: int| color_item(i)), ","@) + "]}"@
}

/// Appends the JSON of row `j` of `NAMES`.
fn push_builtin_item(out: &mut String, j: usize)
    requires
        j < 24,
    ensures
        final(out)@ == old(out)@ + builtin_item(j as int),
{
    let ghost start = out@;
    let (b, uk, en) = NAMES[j];
    push_str(out, "{\"uk\":");
    push_json(out, uk);
    push_str(out, ",\"en\":");
    push_json(out, en);
    push_str(out, ",\"sig_uk\":");
    push_json(out, b.signature(Lang::Uk));
    push_str(out, ",\"sig_en\":");
    push_json(out, b.signature(Lang::En));
    push_str(out, ",\"doc_uk\":");
    push_json(out, b.doc(Lang::Uk));
    push_str(out, ",\"doc_en\":");
    push_json(out, b.doc(Lang::En));
    push_str(out, "}");
    proof {
        reveal(builtin_item);
        assert(out@ =~= start + builtin_item(j as int));
    }
}

/// Appends the JSON of entry `e`, which is row `i` of the library.
fn push_entry_item(out: &mut String, e: &Entry, i: usize)
    requires
        i < ENTRY_COUNT,
        e.is_row(i as int),
    ensures
        final(out)@ == old(out)@ + entry_item(i as int),
{
    let ghost start = out@;
    proof {
        lemma_row_entry(*e, i as int, Lang::Uk);
        lemma_row_entry(*e, i as int, Lang::En);
    }
    push_str(out, "{\"uk\":");
    push_json(out, e.name(Lang::Uk));
    push_str(out, ",\"en\":");
    push_json(out, e.name(Lang::En));
    push_str(out, ",\"form_uk\":");
    push_json(out, e.form(Lang::Uk));
    push_str(out, ",\"form_en\":");
    push_json(out, e.form(Lang::En));
    push_str(out, ",\"text_uk\":");
    push_json(out, e.text(Lang::Uk));
    push_str(out, ",\"text_en\":");
    push_json(out, e.text(Lang::En));
    push_str(out, ",\"ex_uk\":");
    push_json(out, e.example(Lang::Uk));
    push_str(out, ",\"ex_en\":");
    push_json(out, e.example(Lang::En));
    push_str(out, "}");
    proof {
        reveal(entry_item);
        assert(out@ =~= start + entry_item(i as int));
    }
}

/// Appends the JSON of colour `j` of the palette, which `c` is.
fn push_color_item(out: &mut String, c: &Named, j: usize)
    requires
        j < 12,
        c@ == palette_view(j as int),
    ensures
        final(out)@ == old(out)@ + color_item(j as int),
{
    let ghost start = out@;
    let uk = c.name(Lang::Uk);
    let en = c.name(Lang::En);
    let hex = c.hex();
    push_str(out, "{\"uk\":");
    push_json(out, uk.as_str());
    push_str(out, ",\"en\":");
    push_json(out, en.as_str());
    push_str(out, ",\"hex\":");
    push_json(out, hex.as_str());
    push_str(out, "}");
    proof {
        reveal(color_item);
        assert(out@ =~= start + color_item(j as int));
    }
}

/// Appends the JSON of section `k` of `Section::ALL`, with the entries of `es` that belong
/// to it.
fn push_section_item(out: &mut String, es: &Vec<Entry>, k: usize)
    requires
        k < 7,
        es@.len() == ENTRY_COUNT,
        forall|i: int| 0 <= i < ENTRY_COUNT ==> (#[trigger] es@[i]).is_row(i),
    ensures
        final(out)@ == old(out)@ + section_item(Section::ALL[k as int]),
{
    let ghost start = out@;
    let section = Section::ALL[k];
    push_str(out, "{\"id\":");
    push_json(out, section.id());
    push_str(out, ",\"uk\":");
    push_json(out, section.title(Lang::Uk));
    push_str(out, ",\"en\":");
    push_json(out, section.title(Lang::En));
    push_str(out, ",\"entries\":[");
    let ghost mid = out@;
    let mut i: usize = 0;
    let mut count: usize = 0;
    while i < ENTRY_COUNT
        invariant
            i <= ENTRY_COUNT,
            es@.len() == ENTRY_COUNT,
            forall|i: int| 0 <= i < ENTRY_COUNT ==> (#[trigger] es@[i]).is_row(i),
            count <= i,
            count == section_items(section, i as int).len(),
            out@ == mid + join_with(section_items(section, i as int), ","@),
        decreases ENTRY_COUNT - i,
    {
        let e = &es[i];
        proof {
            assert(es@[i as int].is_row(i as int));
        }
        if e.section == section {
            if count > 0 {
                push_str(out, ",");
            }
            push_entry_item(out, e, i);
            proof {
                lemma_join_push(section_items(section, i as int), ","@, entry_item(i as int));
                assert(out@ =~= mid + join_with(section_items(section, i + 1), ","@));
            }
            count = count + 1;
        }
        i += 1;
    }
    push_str(out, "]}");
    proof {
        reveal(section_item);
        assert(out@ =~= start + section_item(section));
    }
}

/// The library of every word, with the named colours, as JSON for the Studio's sidebar.
pub fn library_json() -> (r: String)
    ensures
        r@ == spec_library_json(),
{
    let es = entries();
    let ghost secs = Seq::new(7, |k: int| section_item(Section::ALL[k]));
    let mut out = String::new();
    push_str(&mut out, "{\"sections\":[");
    let ghost head = out@;
    let mut k: usize = 0;
    while k < 7
        invariant
            k <= 7,
            es@.len() == ENTRY_COUNT,
            forall|i: int| 0 <= i < ENTRY_COUNT ==> (#[trigger] es@[i]).is_row(i),
            secs == Seq::new(7, |k: int| section_item(Section::ALL[k])),
            out@ == head + join_with(secs.take(k as int), ","@),
        decreases 7 - k,
    {
        if k > 0 {
            push_str(&mut out, ",");
        }
        push_section_item(&mut out, &es, k);
        proof {
            lemma_join_push(secs.take(k as int), ","@, secs[k as int]);
            assert(secs.take(k as int).push(secs[k as int]) =~= secs.take(k + 1));
            assert(out@ =~= head + join_with(secs.take(k + 1), ","@));
        }
        k += 1;
    }
    push_str(&mut out, "],\"colors\":[");
    let ghost head2 = out@;
    let ghost cols = Seq::new(12, |i: int| color_item(i));
    let pal = palette();
    let mut j: usize = 0;
    while j < 12
        invariant
            j <= 12,
            pal@.len() == 12,
            forall|i: int| 0 <= i < 12 ==> #[trigger] pal@[i]@ == palette_view(i),
            cols == Seq::new(12, |i: int| color_item(i)),
            out@ == head2 + join_with(cols.take(j as int), ","@),
        decreases 12 - j,
    {
        let ghost before = out@;
        if j > 0 {
            push_str(&mut out, ",");
        }
        proof {
            assert(pal@[j as int]@ == palette_view(j as int));
        }
        push_color_item(&mut out, &pal[j], j);
        proof {
            lemma_join_push(cols.take(j as int), ","@, cols[j as int]);
            assert(cols.take(j as int).push(cols[j as int]) =~= cols.take(j + 1));
            assert(out@ =~= head2 + join_with(cols.take(j + 1), ","@));
        }
        j += 1;
    }
    push_str(&mut out, "]}");
    proof {
        assert(secs.take(7) =~= secs);
        assert(cols.take(12) =~= cols);
        assert(out@ =~= spec_library_json());
    }
    out
}

/// What a run reports to the page: whether it drew, the picture, and the error if it failed,
/// as its rendering and where it starts and ends in UTF-16 units.
pub open spec fn spec_report(drew: bool, svg: Seq<char>, error: Option<(Seq<char>, nat, nat)>) -> Seq<
    char,
> {
    let head = "\"drew\":"@ + (if drew {
        "true"@
    } else {
        "false"@
    }) + ",\"svg\":"@ + spec_json_str(svg);
    match error {
        None => "{\"ok\":true,"@ + head + "}"@,
        Some((text, from, to)) => "{\"ok\":false,"@ + head + ",\"error\":{\"text\":"@
            + spec_json_str(text) + ",\"from\":"@ + decimal(from) + ",\"to\":"@ + decimal(to)
            + "}}"@,
    }
}

/// An error as the page sees it: its rendering in `lang`, and where it starts and ends in
/// UTF-16 units (an end before the start counts as the start).
pub open spec fn error_view(src: Seq<char>, lang: Lang, d: Diagnostic) -> (Seq<char>, nat, nat) {
    let end = if d.span.end >= d.span.start {
        d.span.end
    } else {
        d.span.start
    };
    (
        d.spec_render(src, lang),
        utf16_before(src, d.span.start as int, 0),
        utf16_before(src, end as int, 0),
    )
}

/// A later byte offset never has an earlier UTF-16 position.
pub proof fn lemma_utf16_monotonic(s: Seq<char>, lo: int, hi: int, k: int)
    requires
        lo <= hi,
    ensures
        utf16_before(s, lo, k) <= utf16_before(s, hi, k),
    decreases s.len() - k,
{
    if !(k < 0 || k >= s.len()) {
        lemma_utf16_monotonic(s, lo, hi, k + 1);
    }
}

/// In a report, an error's UTF-16 "from" is never after its "to".
pub proof fn lemma_error_from_before_to(src: Seq<char>, lang: Lang, d: Diagnostic)
    ensures
        error_view(src, lang, d).1 <= error_view(src, lang, d).2,
{
    let end = if d.span.end >= d.span.start {
        d.span.end
    } else {
        d.span.start
    };
    lemma_utf16_monotonic(src, d.span.start as int, end as int, 0);
}

/// Describes a run of `src` as JSON for the page: whether it drew, its picture, and its
/// error if it failed.
pub fn report_json(src: &str, lang: Lang, drew: bool, svg: &str, error: Option<&Diagnostic>) -> (r: String)
    requires
        byte_len(src@) < usize::MAX / 4,
        error matches Some(d) ==> at_boundary(src@, d.span.start as int) && at_boundary(
            src@,
            d.caret_end(src@),
        ),
    ensures
        r@ == spec_report(
            drew,
            svg@,
            match error {
                Some(d) => Some(error_view(src@, lang, *d)),
                None => None,
            },
        ),
{
    let mut head = String::new();
    push_str(&mut head, "\"drew\":");
    push_str(&mut head, if drew {
        "true"
    } else {
        "false"
    });
    push_str(&mut head, ",\"svg\":");
    push_json(&mut head, svg);
    let mut out = String::new();
    match error {
        None => {
            push_str(&mut out, "{\"ok\":true,");
            push_str(&mut out, head.as_str());
            push_str(&mut out, "}");
        },
        Some(d) => {
            let text = d.render(src, lang);
            let from = utf16_offset(src, d.span.start);
            let end = if d.span.end >= d.span.start {
                d.span.end
            } else {
                d.span.start
            };
            let to = utf16_offset(src, end);
            push_str(&mut out, "{\"ok\":false,");
            push_str(&mut out, head.as_str());
            push_str(&mut out, ",\"error\":{\"text\":");
            push_json(&mut out, text.as_str());
            push_str(&mut out, ",\"from\":");
            push_decimal(&mut out, from as u64);
            push_str(&mut out, ",\"to\":");
            push_decimal(&mut out, to as u64);
            push_str(&mut out, "}}");
        },
    }
    proof {
        let e = match error {
            Some(d) => Some(error_view(src@, lang, *d)),
            None => None,
        };
        assert(out@ =~= spec_report(drew, svg@, e));
    }
    out
}

} // verus!
