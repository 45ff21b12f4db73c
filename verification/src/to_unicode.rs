//! The ToUnicode stream builder: renders the CMap blocks into the textual
//! CMap stream a text-extraction tool reads to recover Unicode text from
//! CID-encoded show operations.
//!
//! The stream is a fixed header parameterized by the embedded font's name,
//! one `beginbfchar` section per block with each pair written as hex glyph id
//! and hex codepoint (four digits at least, matching `{:04x}`), and a fixed
//! footer.

use vstd::prelude::*;

use crate::cmap::CmapBlock;
use crate::cmap::block_views;

verus! {

/// The character for one digit value, decimal or hexadecimal.
pub open spec fn digit_char(d: int) -> char {
    if d == 0 {
        '0'
    } else if d == 1 {
        '1'
    } else if d == 2 {
        '2'
    } else if d == 3 {
        '3'
    } else if d == 4 {
        '4'
    } else if d == 5 {
        '5'
    } else if d == 6 {
        '6'
    } else if d == 7 {
        '7'
    } else if d == 8 {
        '8'
    } else if d == 9 {
        '9'
    } else if d == 10 {
        'a'
    } else if d == 11 {
        'b'
    } else if d == 12 {
        'c'
    } else if d == 13 {
        'd'
    } else if d == 14 {
        'e'
    } else {
        'f'
    }
}

/// The hexadecimal digits of `n`, most significant first, no padding.
pub open spec fn hex_seq(n: int) -> Seq<char>
    recommends
        n >= 0,
    decreases n,
{
    if n <= 0xf {
        seq![digit_char(n)]
    } else {
        hex_seq(n / 16).push(digit_char(n % 16))
    }
}

/// `k` zero characters.
pub open spec fn zeros(k: int) -> Seq<char>
    decreases k,
{
    if k <= 0 {
        Seq::empty()
    } else {
        zeros(k - 1).push('0')
    }
}

/// The hexadecimal digits of `n`, left-padded with zeros to at least four.
pub open spec fn hex4(n: int) -> Seq<char> {
    zeros(4 - hex_seq(n).len()) + hex_seq(n)
}

/// The decimal digits of `n`, most significant first.
pub open spec fn dec_seq(n: int) -> Seq<char>
    recommends
        n >= 0,
    decreases n,
{
    if n <= 9 {
        seq![digit_char(n)]
    } else {
        dec_seq(n / 10).push(digit_char(n % 10))
    }
}

/// One rendered pair line: `<gggg> <cccc>` and a newline.
pub open spec fn pair_line(g: u16, cp: u32) -> Seq<char> {
    "<"@ + hex4(g as int) + "> <"@ + hex4(cp as int) + ">\n"@
}

/// The rendered pair lines of one block, in order.
pub open spec fn pairs_chars(block: Seq<(u16, u32)>) -> Seq<char>
    decreases block.len(),
{
    if block.len() == 0 {
        Seq::empty()
    } else {
        pairs_chars(block.drop_last()) + pair_line(block.last().0, block.last().1)
    }
}

/// One rendered `beginbfchar` section.
pub open spec fn section_chars(block: Seq<(u16, u32)>) -> Seq<char> {
    dec_seq(block.len() as int) + " beginbfchar\r\n"@ + pairs_chars(block) + "endbfchar\r\n"@
}

/// All rendered sections, in block order.
pub open spec fn sections_chars(blocks: Seq<Seq<(u16, u32)>>) -> Seq<char>
    decreases blocks.len(),
{
    if blocks.len() == 0 {
        Seq::empty()
    } else {
        sections_chars(blocks.drop_last()) + section_chars(blocks.last())
    }
}

/// The fixed stream header, parameterized by the embedded font's name.
pub open spec fn cmap_header(name: Seq<char>) -> Seq<char> {
    "/CIDInit /ProcSet findresource begin\n12 dict begin\nbegincmap\n/CIDSystemInfo <<\n/Registry (Adobe)\n/Ordering (UCS)\n/Supplement 0\n>> def\n/CMapName /"@
        + name
        + " def\n/CMapType 2 def\n1 begincodespacerange\n<0000> <ffff>\nendcodespacerange\n"@
}

/// The fixed stream footer.
pub open spec fn cmap_footer() -> Seq<char> {
    "endcmap\nCMapName currentdict /CMap defineresource pop\nend\nend\n"@
}

/// The whole ToUnicode stream for a font name and its blocks.
pub open spec fn to_unicode_chars(name: Seq<char>, blocks: Seq<Seq<(u16, u32)>>) -> Seq<char> {
    cmap_header(name) + sections_chars(blocks) + cmap_footer()
}

/// The one-character string for a digit value.
fn digit_str(d: u8) -> (r: &'static str)
    requires
        d < 16,
    ensures
        r@ =~= seq![digit_char(d as int)],
{
    proof {
        reveal_strlit("0");
        reveal_strlit("1");
        reveal_strlit("2");
        reveal_strlit("3");
        reveal_strlit("4");
        reveal_strlit("5");
        reveal_strlit("6");
        reveal_strlit("7");
        reveal_strlit("8");
        reveal_strlit("9");
        reveal_strlit("a");
        reveal_strlit("b");
        reveal_strlit("c");
        reveal_strlit("d");
        reveal_strlit("e");
        reveal_strlit("f");
    }
    if d == 0 {
        "0"
    } else if d == 1 {
        "1"
    } else if d == 2 {
        "2"
    } else if d == 3 {
        "3"
    } else if d == 4 {
        "4"
    } else if d == 5 {
        "5"
    } else if d == 6 {
        "6"
    } else if d == 7 {
        "7"
    } else if d == 8 {
        "8"
    } else if d == 9 {
        "9"
    } else if d == 10 {
        "a"
    } else if d == 11 {
        "b"
    } else if d == 12 {
        "c"
    } else if d == 13 {
        "d"
    } else if d == 14 {
        "e"
    } else {
        "f"
    }
}

/// Appends the unpadded hexadecimal digits of `n`.
fn push_hex(n: u32, out: &mut String)
    ensures
        final(out)@ == old(out)@ + hex_seq(n as int),
    decreases n,
{
    if n <= 0xf {
        out.append(digit_str(n as u8));
        assert(final(out)@ =~= old(out)@ + hex_seq(n as int));
    } else {
        push_hex(n / 16, out);
        out.append(digit_str((n % 16) as u8));
        assert(final(out)@ =~= old(out)@ + hex_seq(n as int));
    }
}

/// How many digits the unpadded rendering uses, for values up to 0xffff.
proof fn lemma_hex_seq_len(n: int)
    requires
        0 <= n,
    ensures
        n <= 0xf ==> hex_seq(n).len() == 1,
        0x10 <= n <= 0xff ==> hex_seq(n).len() == 2,
        0x100 <= n <= 0xfff ==> hex_seq(n).len() == 3,
        0x1000 <= n ==> hex_seq(n).len() >= 4,
    decreases n,
{
    if n > 0xf {
        lemma_hex_seq_len(n / 16);
    }
}

/// Appends the hexadecimal digits of `n`, zero-padded to at least four.
fn push_hex4(n: u32, out: &mut String)
    ensures
        final(out)@ == old(out)@ + hex4(n as int),
{
    proof {
        lemma_hex_seq_len(n as int);
        reveal_with_fuel(zeros, 5);
        reveal_strlit("000");
        reveal_strlit("00");
        reveal_strlit("0");
    }
    if n <= 0xf {
        out.append("000");
        assert(out@ =~= old(out)@ + zeros(3));
    } else if n <= 0xff {
        out.append("00");
        assert(out@ =~= old(out)@ + zeros(2));
    } else if n <= 0xfff {
        out.append("0");
        assert(out@ =~= old(out)@ + zeros(1));
    } else {
        assert(out@ =~= old(out)@ + zeros(4 - hex_seq(n as int).len()));
    }
    push_hex(n, out);
    assert(final(out)@ =~= old(out)@ + hex4(n as int));
}

/// Appends the decimal digits of `n`.
fn push_dec(n: u64, out: &mut String)
    ensures
        final(out)@ == old(out)@ + dec_seq(n as int),
    decreases n,
{
    if n <= 9 {
        out.append(digit_str(n as u8));
        assert(final(out)@ =~= old(out)@ + dec_seq(n as int));
    } else {
        push_dec(n / 10, out);
        out.append(digit_str((n % 10) as u8));
        assert(final(out)@ =~= old(out)@ + dec_seq(n as int));
    }
}

/// Appends one rendered pair line.
fn push_pair(g: u16, cp: u32, out: &mut String)
    ensures
        final(out)@ == old(out)@ + pair_line(g, cp),
{
    out.append("<");
    push_hex4(g as u32, out);
    out.append("> <");
    push_hex4(cp, out);
    out.append(">\n");
    assert(final(out)@ =~= old(out)@ + pair_line(g, cp));
}

/// Appends one rendered `beginbfchar` section.
fn push_section(block: &CmapBlock, out: &mut String)
    ensures
        final(out)@ == old(out)@ + section_chars(block@),
{
    let ghost start = out@;
    push_dec(block.len() as u64, out);
    out.append(" beginbfchar\r\n");
    let ghost mid = out@;
    let mut j: usize = 0;
    while j < block.len()
        invariant
            j <= block@.len(),
            mid == start + dec_seq(block@.len() as int) + " beginbfchar\r\n"@,
            out@ == mid + pairs_chars(block@.take(j as int)),
        decreases block@.len() - j,
    {
        let (g, cp) = block[j];
        push_pair(g, cp, out);
        proof {
            assert(block@.take(j + 1).drop_last() =~= block@.take(j as int));
            assert(block@.take(j + 1).last() == block@[j as int]);
            assert(out@ =~= mid + pairs_chars(block@.take(j + 1)));
        }
        j = j + 1;
    }
    proof {
        assert(block@.take(block@.len() as int) =~= block@);
    }
    out.append("endbfchar\r\n");
    assert(final(out)@ =~= start + section_chars(block@));
}

/// Renders the whole ToUnicode stream for a font name and its blocks.
pub fn create_cid_unicode_map(face_name: String, all_cmap_blocks: Vec<CmapBlock>) -> (r: String)
    ensures
        r@ == to_unicode_chars(face_name@, block_views(all_cmap_blocks@)),
{
    let ghost views = block_views(all_cmap_blocks@);
    let mut out = String::new();
    out.append(
        "/CIDInit /ProcSet findresource begin\n12 dict begin\nbegincmap\n/CIDSystemInfo <<\n/Registry (Adobe)\n/Ordering (UCS)\n/Supplement 0\n>> def\n/CMapName /",
    );
    out.append(face_name.as_str());
    out.append(" def\n/CMapType 2 def\n1 begincodespacerange\n<0000> <ffff>\nendcodespacerange\n");
    assert(out@ =~= cmap_header(face_name@));
    let mut bi: usize = 0;
    while bi < all_cmap_blocks.len()
        invariant
            bi <= all_cmap_blocks@.len(),
            views == block_views(all_cmap_blocks@),
            out@ == cmap_header(face_name@) + sections_chars(views.take(bi as int)),
        decreases all_cmap_blocks@.len() - bi,
    {
        push_section(&all_cmap_blocks[bi], &mut out);
        proof {
            assert(views.take(bi + 1).drop_last() =~= views.take(bi as int));
            assert(views.take(bi + 1).last() == all_cmap_blocks@[bi as int]@);
            assert(out@ =~= cmap_header(face_name@) + sections_chars(views.take(bi + 1)));
        }
        bi = bi + 1;
    }
    proof {
        assert(views.take(all_cmap_blocks@.len() as int) =~= views);
    }
    out.append("endcmap\nCMapName currentdict /CMap defineresource pop\nend\nend\n");
    assert(out@ =~= to_unicode_chars(face_name@, views));
    out
}

} // verus!

verus! {

/// A decimal digit character.
pub open spec fn is_digit(c: char) -> bool {
    '0' <= c <= '9'
}

/// A lowercase hexadecimal digit character.
pub open spec fn is_hex_digit(c: char) -> bool {
    is_digit(c) || 'a' <= c <= 'f'
}

/// The value of a digit character.
pub open spec fn digit_val(c: char) -> int {
    if is_digit(c) {
        c as int - 48
    } else {
        c as int - 87
    }
}

/// How many leading decimal digits the text has.
pub open spec fn digits_len(s: Seq<char>) -> int
    decreases s.len(),
{
    if s.len() == 0 || !is_digit(s.first()) {
        0
    } else {
        1 + digits_len(s.drop_first())
    }
}

/// How many leading hexadecimal digits the text has.
pub open spec fn hex_len(s: Seq<char>) -> int
    decreases s.len(),
{
    if s.len() == 0 || !is_hex_digit(s.first()) {
        0
    } else {
        1 + hex_len(s.drop_first())
    }
}

/// The value of an all-digit decimal text, most significant first.
pub open spec fn parse_dec(s: Seq<char>) -> int
    decreases s.len(),
{
    if s.len() == 0 {
        0
    } else {
        parse_dec(s.drop_last()) * 10 + digit_val(s.last())
    }
}

/// The value of an all-digit hexadecimal text, most significant first.
pub open spec fn parse_hex(s: Seq<char>) -> int
    decreases s.len(),
{
    if s.len() == 0 {
        0
    } else {
        parse_hex(s.drop_last()) * 16 + digit_val(s.last())
    }
}

/// Every character of the text is a decimal digit.
pub open spec fn all_digits(s: Seq<char>) -> bool {
    forall|i: int| 0 <= i < s.len() ==> is_digit(#[trigger] s[i])
}

/// Every character of the text is a hexadecimal digit.
pub open spec fn all_hex_digits(s: Seq<char>) -> bool {
    forall|i: int| 0 <= i < s.len() ==> is_hex_digit(#[trigger] s[i])
}

/// Digit characters carry their value back.
proof fn lemma_digit_char_val(d: int)
    requires
        0 <= d < 16,
    ensures
        digit_val(digit_char(d)) == d,
        is_hex_digit(digit_char(d)),
        d < 10 ==> is_digit(digit_char(d)),
        d >= 10 ==> !is_digit(digit_char(d)),
{
}

/// Parsing inverts decimal rendering.
proof fn lemma_parse_dec_seq(n: int)
    requires
        0 <= n,
    ensures
        parse_dec(dec_seq(n)) == n,
        all_digits(dec_seq(n)),
        dec_seq(n).len() >= 1,
    decreases n,
{
    if n <= 9 {
        lemma_digit_char_val(n);
        assert(dec_seq(n) == seq![digit_char(n)]);
        assert(dec_seq(n).drop_last() =~= Seq::<char>::empty());
        assert(parse_dec(Seq::<char>::empty()) == 0);
        assert(parse_dec(dec_seq(n)) == n);
    } else {
        lemma_parse_dec_seq(n / 10);
        lemma_digit_char_val(n % 10);
        assert(dec_seq(n).drop_last() =~= dec_seq(n / 10));
        assert(dec_seq(n).last() == digit_char(n % 10));
        assert(n / 10 * 10 + n % 10 == n) by (nonlinear_arith);
        assert(dec_seq(n).len() > 0);
        assert(parse_dec(dec_seq(n)) == parse_dec(dec_seq(n).drop_last()) * 10 + digit_val(
            dec_seq(n).last(),
        ));
        assert(parse_dec(dec_seq(n).drop_last()) == n / 10);
        assert(digit_val(dec_seq(n).last()) == n % 10);
        assert(parse_dec(dec_seq(n)) == n);
        assert forall|i: int| 0 <= i < dec_seq(n).len() implies is_digit(#[trigger] dec_seq(n)[i]) by {
            if i < dec_seq(n).len() - 1 {
                assert(dec_seq(n)[i] == dec_seq(n / 10)[i]);
            }
        }
    }
}

/// Parsing inverts hexadecimal rendering.
proof fn lemma_parse_hex_seq(n: int)
    requires
        0 <= n,
    ensures
        parse_hex(hex_seq(n)) == n,
        all_hex_digits(hex_seq(n)),
        hex_seq(n).len() >= 1,
    decreases n,
{
    if n <= 0xf {
        lemma_digit_char_val(n);
        assert(hex_seq(n) == seq![digit_char(n)]);
        assert(hex_seq(n).drop_last() =~= Seq::<char>::empty());
        assert(parse_hex(Seq::<char>::empty()) == 0);
        assert(parse_hex(hex_seq(n)) == n);
    } else {
        lemma_parse_hex_seq(n / 16);
        lemma_digit_char_val(n % 16);
        assert(hex_seq(n).drop_last() =~= hex_seq(n / 16));
        assert(hex_seq(n).last() == digit_char(n % 16));
        assert(n / 16 * 16 + n % 16 == n) by (nonlinear_arith);
        assert(parse_hex(hex_seq(n)) == n);
        assert forall|i: int| 0 <= i < hex_seq(n).len() implies is_hex_digit(
            #[trigger] hex_seq(n)[i],
        ) by {
            if i < hex_seq(n).len() - 1 {
                assert(hex_seq(n)[i] == hex_seq(n / 16)[i]);
            }
        }
    }
}

/// Leading zeros change no hexadecimal value.
proof fn lemma_parse_hex_zeros(k: int, t: Seq<char>)
    ensures
        parse_hex(zeros(k) + t) == parse_hex(t),
        all_hex_digits(zeros(k) + t) <==> all_hex_digits(t),
    decreases t.len(), k,
{
    if t.len() == 0 {
        if k <= 0 {
            assert(zeros(k) + t =~= t);
        } else {
            assert(zeros(k) + t =~= zeros(k));
            assert((zeros(k)).drop_last() =~= zeros(k - 1) + Seq::<char>::empty());
            lemma_parse_hex_zeros(k - 1, t);
            assert(zeros(k - 1) + Seq::<char>::empty() =~= zeros(k - 1));
            assert(zeros(k).last() == '0');
            assert(digit_val('0') == 0);
            assert(parse_hex(zeros(k)) == parse_hex(zeros(k - 1)) * 16);
            assert(parse_hex(zeros(k - 1)) == 0);
        }
        assert forall|i: int| 0 <= i < (zeros(k) + t).len() implies is_hex_digit(
            #[trigger] (zeros(k) + t)[i],
        ) by {
            lemma_zeros_chars(k);
        }
    } else {
        lemma_parse_hex_zeros(k, t.drop_last());
        assert((zeros(k) + t).drop_last() =~= zeros(k) + t.drop_last());
        assert((zeros(k) + t).last() == t.last());
        assert(parse_hex(zeros(k) + t) == parse_hex(t));
        lemma_zeros_chars(k);
        let zl = zeros(k).len() as int;
        assert forall|i: int| 0 <= i < (zeros(k) + t).len() && all_hex_digits(t) implies is_hex_digit(
            #[trigger] (zeros(k) + t)[i],
        ) by {
            if i >= zl {
                assert((zeros(k) + t)[i] == t[i - zl]);
            }
        }
        assert forall|i: int| 0 <= i < t.len() && all_hex_digits(zeros(k) + t) implies is_hex_digit(
            #[trigger] t[i],
        ) by {
            assert((zeros(k) + t)[zl + i] == t[i]);
        }
    }
}

/// Zero padding is zero characters.
proof fn lemma_zeros_chars(k: int)
    ensures
        zeros(k).len() == (if k <= 0 { 0int } else { k }),
        forall|i: int| 0 <= i < zeros(k).len() ==> #[trigger] zeros(k)[i] == '0',
    decreases k,
{
    if k > 0 {
        lemma_zeros_chars(k - 1);
    }
}

/// Parsing inverts the padded rendering.
proof fn lemma_parse_hex4(n: int)
    requires
        0 <= n,
    ensures
        parse_hex(hex4(n)) == n,
        all_hex_digits(hex4(n)),
        hex4(n).len() >= 1,
    decreases n,
{
    lemma_parse_hex_seq(n);
    lemma_parse_hex_zeros(4 - hex_seq(n).len(), hex_seq(n));
    if hex_seq(n).len() >= 4 {
        assert(hex4(n) =~= zeros(4 - hex_seq(n).len()) + hex_seq(n));
    }
}

/// A run of digits followed by a non-digit scans to exactly the run.
proof fn lemma_digits_len_concat(s: Seq<char>, rest: Seq<char>)
    requires
        all_digits(s),
        rest.len() == 0 || !is_digit(rest.first()),
    ensures
        digits_len(s + rest) == s.len(),
    decreases s.len(),
{
    if s.len() == 0 {
        assert(s + rest =~= rest);
    } else {
        assert((s + rest).first() == s.first());
        assert((s + rest).drop_first() =~= s.drop_first() + rest);
        lemma_digits_len_concat(s.drop_first(), rest);
    }
}

/// A run of hex digits followed by a non-hex character scans to exactly the
/// run.
proof fn lemma_hex_len_concat(s: Seq<char>, rest: Seq<char>)
    requires
        all_hex_digits(s),
        rest.len() == 0 || !is_hex_digit(rest.first()),
    ensures
        hex_len(s + rest) == s.len(),
    decreases s.len(),
{
    if s.len() == 0 {
        assert(s + rest =~= rest);
    } else {
        assert((s + rest).first() == s.first());
        assert((s + rest).drop_first() =~= s.drop_first() + rest);
        lemma_hex_len_concat(s.drop_first(), rest);
    }
}

} // verus!

verus! {

/// Decodes one rendered pair line: glyph id and codepoint back from their
/// hex digits, with what follows the line.
pub open spec fn decode_pair_line(s: Seq<char>) -> Option<((u16, u32), Seq<char>)> {
    if s.len() >= 1 && s.first() == '<' {
        let s1 = s.drop_first();
        let gl = hex_len(s1);
        if gl >= 1 && parse_hex(s1.take(gl)) <= 0xffff {
            let s2 = s1.skip(gl);
            if s2.len() >= 3 && s2.take(3) == "> <"@ {
                let s3 = s2.skip(3);
                let cl = hex_len(s3);
                if cl >= 1 && parse_hex(s3.take(cl)) <= 0xffff_ffff {
                    let s4 = s3.skip(cl);
                    if s4.len() >= 2 && s4.take(2) == ">\n"@ {
                        Some(
                            (
                                ((parse_hex(s1.take(gl)) as u16), (parse_hex(s3.take(cl)) as u32)),
                                s4.skip(2),
                            ),
                        )
                    } else {
                        None
                    }
                } else {
                    None
                }
            } else {
                None
            }
        } else {
            None
        }
    } else {
        None
    }
}

/// Decodes `n` pair lines, returning the pairs and what follows them.
pub open spec fn decode_pairs(s: Seq<char>, n: int) -> Option<(Seq<(u16, u32)>, Seq<char>)>
    decreases n,
{
    if n <= 0 {
        Some((Seq::empty(), s))
    } else {
        match decode_pair_line(s) {
            None => None,
            Some((p, rest)) => match decode_pairs(rest, n - 1) {
                None => None,
                Some((ps, rest2)) => Some((seq![p] + ps, rest2)),
            },
        }
    }
}

/// Decodes the `beginbfchar` sections down to the footer, concatenating
/// their pairs. The fuel bounds the number of sections.
pub open spec fn decode_sections(s: Seq<char>, fuel: nat) -> Option<Seq<(u16, u32)>>
    decreases fuel,
{
    if s == cmap_footer() {
        Some(Seq::empty())
    } else if fuel == 0 {
        None
    } else {
        let d = digits_len(s);
        if d >= 1 {
            let n = parse_dec(s.take(d));
            let s1 = s.skip(d);
            if s1.len() >= 14 && s1.take(14) == " beginbfchar\r\n"@ {
                match decode_pairs(s1.skip(14), n) {
                    None => None,
                    Some((ps, rest)) => {
                        if rest.len() >= 11 && rest.take(11) == "endbfchar\r\n"@ {
                            match decode_sections(rest.skip(11), (fuel - 1) as nat) {
                                None => None,
                                Some(more) => Some(ps + more),
                            }
                        } else {
                            None
                        }
                    },
                }
            } else {
                None
            }
        } else {
            None
        }
    }
}

/// Decodes a whole ToUnicode stream rendered for the given font name back
/// into its glyph id and codepoint pairs.
pub open spec fn decode_to_unicode(name: Seq<char>, s: Seq<char>) -> Option<Seq<(u16, u32)>> {
    let h = cmap_header(name);
    if s.len() >= h.len() && s.take(h.len() as int) == h {
        decode_sections(s.skip(h.len() as int), s.len() as nat)
    } else {
        None
    }
}

/// Decoding inverts the rendering of one pair line, whatever follows it.
proof fn lemma_decode_pair_line(g: u16, cp: u32, rest: Seq<char>)
    ensures
        decode_pair_line(pair_line(g, cp) + rest) == Some(((g, cp), rest)),
{
    reveal_strlit("<");
    reveal_strlit("> <");
    reveal_strlit(">\n");
    lemma_parse_hex4(g as int);
    lemma_parse_hex4(cp as int);
    let s = pair_line(g, cp) + rest;
    assert("<"@.len() == 1 && "> <"@.len() == 3 && ">\n"@.len() == 2);
    assert(s.first() == '<');
    let s1 = s.drop_first();
    let tail_g = "> <"@ + hex4(cp as int) + ">\n"@ + rest;
    assert(s1 =~= hex4(g as int) + tail_g);
    assert(tail_g.first() == '>');
    assert(!is_hex_digit('>'));
    lemma_hex_len_concat(hex4(g as int), tail_g);
    let gl = hex_len(s1);
    assert(gl == hex4(g as int).len());
    assert(s1.take(gl) =~= hex4(g as int));
    assert(parse_hex(s1.take(gl)) == g);
    let s2 = s1.skip(gl);
    assert(s2 =~= "> <"@ + (hex4(cp as int) + (">\n"@ + rest)));
    assert(s2.take(3) =~= "> <"@);
    let s3 = s2.skip(3);
    assert(s3 =~= hex4(cp as int) + (">\n"@ + rest));
    assert((">\n"@ + rest).first() == '>');
    lemma_hex_len_concat(hex4(cp as int), ">\n"@ + rest);
    let cl = hex_len(s3);
    assert(cl == hex4(cp as int).len());
    assert(s3.take(cl) =~= hex4(cp as int));
    assert(parse_hex(s3.take(cl)) == cp);
    let s4 = s3.skip(cl);
    assert(s4 =~= ">\n"@ + rest);
    assert(s4.take(2) =~= ">\n"@);
    assert(s4.skip(2) =~= rest);
}

/// A block's pair lines, read from the front.
proof fn lemma_pairs_first(block: Seq<(u16, u32)>)
    requires
        block.len() > 0,
    ensures
        pairs_chars(block) == pair_line(block.first().0, block.first().1) + pairs_chars(
            block.drop_first(),
        ),
    decreases block.len(),
{
    if block.len() == 1 {
        assert(block.drop_last() =~= Seq::<(u16, u32)>::empty());
        assert(block.drop_first() =~= Seq::<(u16, u32)>::empty());
        assert(block.last() == block.first());
        assert(pairs_chars(block) =~= pair_line(block.first().0, block.first().1) + pairs_chars(
            block.drop_first(),
        ));
    } else {
        lemma_pairs_first(block.drop_last());
        assert(block.drop_last().first() == block.first());
        assert(block.drop_last().drop_first() =~= block.drop_first().drop_last());
        assert(block.drop_first().last() == block.last());
        assert(pairs_chars(block.drop_first()) == pairs_chars(block.drop_first().drop_last())
            + pair_line(block.last().0, block.last().1));
        assert(pairs_chars(block) =~= pair_line(block.first().0, block.first().1) + pairs_chars(
            block.drop_first(),
        ));
    }
}

/// Decoding inverts the rendering of a block's pair lines.
proof fn lemma_decode_pairs(block: Seq<(u16, u32)>, rest: Seq<char>)
    ensures
        decode_pairs(pairs_chars(block) + rest, block.len() as int) == Some((block, rest)),
    decreases block.len(),
{
    if block.len() == 0 {
        assert(pairs_chars(block) + rest =~= rest);
        assert(decode_pairs(rest, 0) == Some((Seq::<(u16, u32)>::empty(), rest)));
        assert(block =~= Seq::<(u16, u32)>::empty());
    } else {
        lemma_pairs_first(block);
        let p = block.first();
        let tail = pairs_chars(block.drop_first()) + rest;
        assert(pairs_chars(block) + rest =~= pair_line(p.0, p.1) + tail);
        lemma_decode_pair_line(p.0, p.1, tail);
        lemma_decode_pairs(block.drop_first(), rest);
        assert(seq![p] + block.drop_first() =~= block);
    }
}

/// The rendered sections, read from the front.
proof fn lemma_sections_first(blocks: Seq<Seq<(u16, u32)>>)
    requires
        blocks.len() > 0,
    ensures
        sections_chars(blocks) == section_chars(blocks.first()) + sections_chars(
            blocks.drop_first(),
        ),
    decreases blocks.len(),
{
    if blocks.len() == 1 {
        assert(blocks.drop_last() =~= Seq::<Seq<(u16, u32)>>::empty());
        assert(blocks.drop_first() =~= Seq::<Seq<(u16, u32)>>::empty());
        assert(blocks.last() == blocks.first());
        assert(sections_chars(blocks) =~= section_chars(blocks.first()) + sections_chars(
            blocks.drop_first(),
        ));
    } else {
        lemma_sections_first(blocks.drop_last());
        assert(blocks.drop_last().first() == blocks.first());
        assert(blocks.drop_last().drop_first() =~= blocks.drop_first().drop_last());
        assert(blocks.drop_first().last() == blocks.last());
        assert(sections_chars(blocks.drop_first()) == sections_chars(
            blocks.drop_first().drop_last(),
        ) + section_chars(blocks.last()));
        assert(sections_chars(blocks) =~= section_chars(blocks.first()) + sections_chars(
            blocks.drop_first(),
        ));
    }
}

/// The concatenated blocks, read from the front.
proof fn lemma_concat_first(blocks: Seq<Seq<(u16, u32)>>)
    requires
        blocks.len() > 0,
    ensures
        crate::cmap::concat_blocks(blocks) == blocks.first() + crate::cmap::concat_blocks(
            blocks.drop_first(),
        ),
    decreases blocks.len(),
{
    if blocks.len() == 1 {
        assert(blocks.drop_last() =~= Seq::<Seq<(u16, u32)>>::empty());
        assert(blocks.drop_first() =~= Seq::<Seq<(u16, u32)>>::empty());
        assert(blocks.last() == blocks.first());
        assert(crate::cmap::concat_blocks(blocks) =~= blocks.first()
            + crate::cmap::concat_blocks(blocks.drop_first()));
    } else {
        lemma_concat_first(blocks.drop_last());
        assert(blocks.drop_last().first() == blocks.first());
        assert(blocks.drop_last().drop_first() =~= blocks.drop_first().drop_last());
        assert(blocks.drop_first().last() == blocks.last());
        assert(crate::cmap::concat_blocks(blocks.drop_first()) == crate::cmap::concat_blocks(
            blocks.drop_first().drop_last(),
        ) + blocks.last());
        assert(crate::cmap::concat_blocks(blocks) =~= blocks.first()
            + crate::cmap::concat_blocks(blocks.drop_first()));
    }
}

/// Decoding inverts the rendering of the sections down to the footer.
proof fn lemma_decode_sections(blocks: Seq<Seq<(u16, u32)>>, fuel: nat)
    requires
        fuel >= blocks.len(),
    ensures
        decode_sections(sections_chars(blocks) + cmap_footer(), fuel) == Some(
            crate::cmap::concat_blocks(blocks),
        ),
    decreases blocks.len(),
{
    reveal_strlit(" beginbfchar\r\n");
    reveal_strlit("endbfchar\r\n");
    reveal_strlit("endcmap\nCMapName currentdict /CMap defineresource pop\nend\nend\n");
    if blocks.len() == 0 {
        assert(sections_chars(blocks) + cmap_footer() =~= cmap_footer());
        assert(crate::cmap::concat_blocks(blocks) =~= Seq::<(u16, u32)>::empty());
    } else {
        lemma_sections_first(blocks);
        lemma_concat_first(blocks);
        let b0 = blocks.first();
        let n0 = b0.len() as int;
        lemma_parse_dec_seq(n0);
        let after = sections_chars(blocks.drop_first()) + cmap_footer();
        let s = sections_chars(blocks) + cmap_footer();
        let inner = " beginbfchar\r\n"@ + (pairs_chars(b0) + ("endbfchar\r\n"@ + after));
        assert(s =~= dec_seq(n0) + inner);
        assert(" beginbfchar\r\n"@.len() == 14);
        assert("endbfchar\r\n"@.len() == 11);
        assert(inner.first() == ' ');
        assert(!is_digit(' '));
        assert(s.first() == dec_seq(n0)[0]);
        assert(is_digit(s.first()));
        assert(cmap_footer().first() == 'e');
        assert(s != cmap_footer()) by {
            assert(!is_digit('e'));
        }
        lemma_digits_len_concat(dec_seq(n0), inner);
        let d = digits_len(s);
        assert(d == dec_seq(n0).len());
        assert(s.take(d) =~= dec_seq(n0));
        assert(parse_dec(s.take(d)) == n0);
        let s1 = s.skip(d);
        assert(s1 =~= " beginbfchar\r\n"@ + (pairs_chars(b0) + ("endbfchar\r\n"@ + after)));
        assert(s1.take(14) =~= " beginbfchar\r\n"@);
        assert(s1.skip(14) =~= pairs_chars(b0) + ("endbfchar\r\n"@ + after));
        lemma_decode_pairs(b0, "endbfchar\r\n"@ + after);
        let rest = "endbfchar\r\n"@ + after;
        assert(rest.take(11) =~= "endbfchar\r\n"@);
        assert(rest.skip(11) =~= after);
        lemma_decode_sections(blocks.drop_first(), (fuel - 1) as nat);
        assert(decode_sections(s, fuel) == Some(b0 + crate::cmap::concat_blocks(
            blocks.drop_first(),
        )));
    }
}

/// How long the rendered sections are, at least.
proof fn lemma_sections_len(blocks: Seq<Seq<(u16, u32)>>)
    ensures
        sections_chars(blocks).len() >= blocks.len(),
    decreases blocks.len(),
{
    if blocks.len() > 0 {
        lemma_sections_len(blocks.drop_last());
        lemma_parse_dec_seq(blocks.last().len() as int);
    }
}

/// Law: the ToUnicode stream round-trips. Decoding the rendered stream for
/// a font name recovers exactly the blocks' pairs, concatenated in order —
/// for the splitter's blocks, the full glyph/unicode table.
pub proof fn lemma_to_unicode_round_trip(name: Seq<char>, blocks: Seq<Seq<(u16, u32)>>)
    ensures
        decode_to_unicode(name, to_unicode_chars(name, blocks)) == Some(
            crate::cmap::concat_blocks(blocks),
        ),
{
    let s = to_unicode_chars(name, blocks);
    let h = cmap_header(name);
    assert(s =~= h + (sections_chars(blocks) + cmap_footer()));
    assert(s.take(h.len() as int) =~= h);
    assert(s.skip(h.len() as int) =~= sections_chars(blocks) + cmap_footer());
    lemma_sections_len(blocks);
    assert(s.len() >= blocks.len());
    lemma_decode_sections(blocks, s.len() as nat);
}

} // verus!

verus! {

/// Law: the rendered stream is consistent with the glyph/unicode table it
/// came from. Splitting the table into blocks, rendering the stream and
/// decoding it back yields the full table — every entry, including glyph 0,
/// independent of width availability.
pub proof fn lemma_stream_recovers_table(name: Seq<char>, entries: Seq<(u16, u32)>)
    ensures
        decode_to_unicode(
            name,
            to_unicode_chars(name, crate::cmap::blocks_of(entries)),
        ) == Some(entries),
{
    crate::cmap::lemma_blocks_partition(entries);
    lemma_to_unicode_round_trip(name, crate::cmap::blocks_of(entries));
}

} // verus!
