//! Byte encodings for report and printer output: UTF-8 text to Latin-1
//! style bytes for PDF text streams, and plain text to an ESC/POS
//! command string.

use vstd::prelude::*;

verus! {

/// The PDF byte of one character: accented letters map to their
/// Windows-1252 positions, ASCII maps to itself, everything else to `?`.
pub open spec fn pdf_byte_of(c: char) -> u8 {
    if c == 'é' {
        0xE9
    } else if c == 'è' {
        0xE8
    } else if c == 'ê' {
        0xEA
    } else if c == 'ë' {
        0xEB
    } else if c == 'à' {
        0xE0
    } else if c == 'â' {
        0xE2
    } else if c == 'ä' {
        0xE4
    } else if c == 'ç' {
        0xE7
    } else if c == 'î' {
        0xEE
    } else if c == 'ï' {
        0xEF
    } else if c == 'ô' {
        0xF4
    } else if c == 'ö' {
        0xF6
    } else if c == 'ù' {
        0xF9
    } else if c == 'û' {
        0xFB
    } else if c == 'ü' {
        0xFC
    } else if c == 'ÿ' {
        0xFF
    } else if c == 'É' {
        0xC9
    } else if c == 'È' {
        0xC8
    } else if c == 'Ê' {
        0xCA
    } else if c == 'Ë' {
        0xCB
    } else if c == 'À' {
        0xC0
    } else if c == 'Â' {
        0xC2
    } else if c == 'Ä' {
        0xC4
    } else if c == 'Ç' {
        0xC7
    } else if c == 'Î' {
        0xCE
    } else if c == 'Ï' {
        0xCF
    } else if c == 'Ô' {
        0xD4
    } else if c == 'Ö' {
        0xD6
    } else if c == 'Ù' {
        0xD9
    } else if c == 'Û' {
        0xDB
    } else if c == 'Ü' {
        0xDC
    } else if c == 'Ÿ' {
        0x9F
    } else if (c as u32) < 128 {
        c as u8
    } else {
        63
    }
}

/// Same mapping without the capital `Ÿ` special case.
pub open spec fn pdf_octal_byte_of(c: char) -> u8 {
    if c == 'Ÿ' {
        63
    } else {
        pdf_byte_of(c)
    }
}

fn pdf_byte_exec(c: char) -> (r: u8)
    ensures
        r == pdf_byte_of(c),
{
    if c == 'é' {
        0xE9
    } else if c == 'è' {
        0xE8
    } else if c == 'ê' {
        0xEA
    } else if c == 'ë' {
        0xEB
    } else if c == 'à' {
        0xE0
    } else if c == 'â' {
        0xE2
    } else if c == 'ä' {
        0xE4
    } else if c == 'ç' {
        0xE7
    } else if c == 'î' {
        0xEE
    } else if c == 'ï' {
        0xEF
    } else if c == 'ô' {
        0xF4
    } else if c == 'ö' {
        0xF6
    } else if c == 'ù' {
        0xF9
    } else if c == 'û' {
        0xFB
    } else if c == 'ü' {
        0xFC
    } else if c == 'ÿ' {
        0xFF
    } else if c == 'É' {
        0xC9
    } else if c == 'È' {
        0xC8
    } else if c == 'Ê' {
        0xCA
    } else if c == 'Ë' {
        0xCB
    } else if c == 'À' {
        0xC0
    } else if c == 'Â' {
        0xC2
    } else if c == 'Ä' {
        0xC4
    } else if c == 'Ç' {
        0xC7
    } else if c == 'Î' {
        0xCE
    } else if c == 'Ï' {
        0xCF
    } else if c == 'Ô' {
        0xD4
    } else if c == 'Ö' {
        0xD6
    } else if c == 'Ù' {
        0xD9
    } else if c == 'Û' {
        0xDB
    } else if c == 'Ü' {
        0xDC
    } else if c == 'Ÿ' {
        0x9F
    } else if (c as u32) < 128 {
        c as u8
    } else {
        63
    }
}

/// Encodes text for a PDF text stream: one byte per character, per
/// [`pdf_byte_of`].
pub fn encode_text_for_pdf_bytes(text: &str) -> (r: Vec<u8>)
    ensures
        r@ == text@.map_values(|c: char| pdf_byte_of(c)),
{
    let cs = crate::text::chars_of(text);
    let mut r: Vec<u8> = Vec::new();
    let mut i: usize = 0;
    while i < cs.len()
        invariant
            cs@ == text@,
            i <= cs@.len(),
            r@.len() == i,
            forall|j: int| 0 <= j < i ==> (#[trigger] r@[j]) == pdf_byte_of(text@[j]),
        decreases cs@.len() - i,
    {
        r.push(pdf_byte_exec(cs[i]));
        i = i + 1;
    }
    proof {
        assert(r@ =~= text@.map_values(|c: char| pdf_byte_of(c)));
    }
    r
}

/// The alternative encoding, without the capital `Ÿ` mapping.
pub fn encode_text_for_pdf_octal(text: &str) -> (r: Vec<u8>)
    ensures
        r@ == text@.map_values(|c: char| pdf_octal_byte_of(c)),
{
    let cs = crate::text::chars_of(text);
    let mut r: Vec<u8> = Vec::new();
    let mut i: usize = 0;
    while i < cs.len()
        invariant
            cs@ == text@,
            i <= cs@.len(),
            r@.len() == i,
            forall|j: int| 0 <= j < i ==> (#[trigger] r@[j]) == pdf_octal_byte_of(text@[j]),
        decreases cs@.len() - i,
    {
        let c = cs[i];
        if c == 'Ÿ' {
            r.push(63);
        } else {
            r.push(pdf_byte_exec(c));
        }
        i = i + 1;
    }
    proof {
        assert(r@ =~= text@.map_values(|c: char| pdf_octal_byte_of(c)));
    }
    r
}

/// Wraps plain text in ESC/POS commands: initialize, content, cut.
pub fn convert_to_escpos(content: &str) -> (r: String)
    ensures
        r@ == "\u{1B}\u{40}"@ + content@ + "\u{1D}\u{56}\u{0}"@,
{
    let r = "\u{1B}\u{40}".to_owned().concat(content).concat("\u{1D}\u{56}\u{0}");
    r
}

} // verus!
