//! Framing of the per-forge tabular output file.
//!
//! Discovered records are appended to a comma-separated file with one
//! header row, written only when the file is created. Fields that contain
//! a delimiter, a quote or a line break are quoted, with embedded quotes
//! doubled, so every record occupies exactly one line and survives a
//! round trip through a standard reader.

use vstd::prelude::*;

use crate::ascii::{B_A, B_C, B_D, B_E, B_F, B_G, B_H, B_I, B_K, B_L, B_M, B_N, B_O, B_R, B_S, B_T,
    B_U, COMMA, CR, LF, QUOTE, UNDERSCORE};
use crate::data::Repo;
use vstd::utf8::encode_utf8;

verus! {

/// Bytes that force a field into quotes: comma, quote, line feed,
/// carriage return.
pub open spec fn is_special(b: u8) -> bool {
    b == COMMA || b == QUOTE || b == LF || b == CR
}

pub open spec fn needs_quoting(field: Seq<u8>) -> bool {
    exists|i: int| 0 <= i < field.len() && is_special(#[trigger] field[i])
}

/// The field's bytes with every quote doubled.
pub open spec fn escaped_body(field: Seq<u8>) -> Seq<u8>
    decreases field.len(),
{
    if field.len() == 0 {
        Seq::empty()
    } else {
        escaped_body(field.drop_last()) + (if field.last() == QUOTE {
            seq![QUOTE, QUOTE]
        } else {
            seq![field.last()]
        })
    }
}

/// A field as written to the output file: verbatim, or quoted when it
/// holds a special byte.
pub open spec fn csv_field(field: Seq<u8>) -> Seq<u8> {
    if needs_quoting(field) {
        seq![QUOTE] + escaped_body(field) + seq![QUOTE]
    } else {
        field
    }
}

/// `true` or `false`.
pub open spec fn bool_bytes(b: bool) -> Seq<u8> {
    if b {
        seq![B_T, B_R, B_U, B_E]
    } else {
        seq![B_F, B_A, B_L, B_S, B_E]
    }
}

/// One output line for a record.
pub open spec fn csv_row(r: Repo) -> Seq<u8> {
    csv_field(encode_utf8(r.id@)) + seq![COMMA] + csv_field(encode_utf8(r.name@)) + seq![COMMA]
        + bool_bytes(r.has_cargo_toml) + seq![COMMA] + bool_bytes(r.has_cargo_lock) + seq![LF]
}

pub open spec fn csv_rows(rows: Seq<Repo>) -> Seq<u8>
    decreases rows.len(),
{
    if rows.len() == 0 {
        Seq::empty()
    } else {
        csv_rows(rows.drop_last()) + csv_row(rows.last())
    }
}

/// The column-name line: `id,name,has_cargo_toml,has_cargo_lock`.
pub open spec fn csv_header() -> Seq<u8> {
    seq![
        B_I,
        B_D,
        COMMA,
        B_N,
        B_A,
        B_M,
        B_E,
        COMMA,
        B_H,
        B_A,
        B_S,
        UNDERSCORE,
        B_C,
        B_A,
        B_R,
        B_G,
        B_O,
        UNDERSCORE,
        B_T,
        B_O,
        B_M,
        B_L,
        COMMA,
        B_H,
        B_A,
        B_S,
        UNDERSCORE,
        B_C,
        B_A,
        B_R,
        B_G,
        B_O,
        UNDERSCORE,
        B_L,
        B_O,
        B_C,
        B_K,
        LF,
    ]
}

/// Everything one flush appends to the output file: the header exactly
/// when the file did not exist before, then one line per record.
pub open spec fn csv_append(file_exists: bool, rows: Seq<Repo>) -> Seq<u8> {
    if file_exists {
        csv_rows(rows)
    } else {
        csv_header() + csv_rows(rows)
    }
}

/// Header-once: a flush that creates the file starts with the header; a
/// flush to an existing file appends data rows alone. Two successive
/// flushes therefore write the header exactly once.
pub proof fn lemma_header_once(rows1: Seq<Repo>, rows2: Seq<Repo>)
    ensures
        csv_append(false, rows1) + csv_append(true, rows2) == csv_header() + csv_rows(rows1)
            + csv_rows(rows2),
        csv_append(true, rows2) == csv_rows(rows2),
{
}

/// Appends one field, quoting and doubling quotes when needed.
fn write_field(out: &mut Vec<u8>, s: &str)
    ensures
        final(out)@ == old(out)@ + csv_field(encode_utf8(s@)),
{
    let bytes = s.as_bytes();
    proof {
        assert(bytes@ == encode_utf8(s@));
    }
    let mut special = false;
    let mut i: usize = 0;
    while i < bytes.len()
        invariant
            i <= bytes@.len(),
            special == needs_quoting(bytes@.take(i as int)),
        decreases bytes@.len() - i,
    {
        let b = bytes[i];
        if b == COMMA || b == QUOTE || b == LF || b == CR {
            special = true;
        }
        proof {
            if is_special(bytes@[i as int]) {
                assert(bytes@.take(i + 1)[i as int] == bytes@[i as int]);
                assert(needs_quoting(bytes@.take(i + 1)));
            } else if needs_quoting(bytes@.take(i as int)) {
                let w = choose|k: int|
                    0 <= k < i && is_special(#[trigger] bytes@.take(i as int)[k]);
                assert(bytes@.take(i + 1)[w] == bytes@.take(i as int)[w]);
                assert(needs_quoting(bytes@.take(i + 1)));
            } else {
                assert forall|k: int| 0 <= k < i + 1 implies !is_special(
                    #[trigger] bytes@.take(i + 1)[k],
                ) by {
                    assert(bytes@.take(i + 1)[k] == bytes@[k]);
                    if k < i {
                        assert(!is_special(bytes@.take(i as int)[k]));
                    }
                }
            }
        }
        i = i + 1;
    }
    proof {
        assert(bytes@.take(bytes@.len() as int) =~= bytes@);
    }
    if !special {
        let mut k: usize = 0;
        while k < bytes.len()
            invariant
                k <= bytes@.len(),
                !needs_quoting(bytes@),
                out@ == old(out)@ + bytes@.take(k as int),
            decreases bytes@.len() - k,
        {
            let b = bytes[k];
            out.push(b);
            proof {
                assert(bytes@.take(k + 1) =~= bytes@.take(k as int).push(bytes@[k as int]));
                assert(old(out)@ + bytes@.take(k + 1) =~= (old(out)@ + bytes@.take(
                    k as int,
                )).push(bytes@[k as int]));
            }
            k = k + 1;
        }
        proof {
            assert(bytes@.take(bytes@.len() as int) =~= bytes@);
        }
    } else {
        out.push(QUOTE);
        let ghost base = old(out)@ + seq![QUOTE];
        proof {
            assert(out@ =~= base + escaped_body(bytes@.take(0)));
        }
        let mut k: usize = 0;
        while k < bytes.len()
            invariant
                k <= bytes@.len(),
                needs_quoting(bytes@),
                base == old(out)@ + seq![QUOTE],
                out@ == base + escaped_body(bytes@.take(k as int)),
            decreases bytes@.len() - k,
        {
            let b = bytes[k];
            out.push(b);
            if b == QUOTE {
                out.push(QUOTE);
            }
            proof {
                assert(bytes@.take(k as int) =~= bytes@.take(k + 1).drop_last());
                if b == QUOTE {
                    assert(out@ =~= base + (escaped_body(bytes@.take(k as int)) + seq![
                        QUOTE,
                        QUOTE,
                    ]));
                } else {
                    assert(out@ =~= base + (escaped_body(bytes@.take(k as int)) + seq![b]));
                }
            }
            k = k + 1;
        }
        out.push(QUOTE);
        proof {
            assert(bytes@.take(bytes@.len() as int) =~= bytes@);
            assert(out@ =~= old(out)@ + (seq![QUOTE] + escaped_body(bytes@) + seq![QUOTE]));
        }
    }
}

/// Appends `true` or `false`.
fn write_bool(out: &mut Vec<u8>, b: bool)
    ensures
        final(out)@ == old(out)@ + bool_bytes(b),
{
    if b {
        out.push(B_T);
        out.push(B_R);
        out.push(B_U);
        out.push(B_E);
    } else {
        out.push(B_F);
        out.push(B_A);
        out.push(B_L);
        out.push(B_S);
        out.push(B_E);
    }
    proof {
        assert(out@ =~= old(out)@ + bool_bytes(b));
    }
}

/// Appends one record's line.
fn write_row(out: &mut Vec<u8>, r: &Repo)
    ensures
        final(out)@ == old(out)@ + csv_row(*r),
{
    write_field(out, r.id.as_str());
    out.push(COMMA);
    write_field(out, r.name.as_str());
    out.push(COMMA);
    write_bool(out, r.has_cargo_toml);
    out.push(COMMA);
    write_bool(out, r.has_cargo_lock);
    out.push(LF);
    proof {
        assert(out@ =~= old(out)@ + csv_row(*r));
    }
}

/// Renders one flush: the bytes to append to the forge's output file for
/// these records, with the header exactly when the file does not yet
/// exist.
pub fn render_csv_append(file_exists: bool, rows: &Vec<Repo>) -> (out: Vec<u8>)
    ensures
        out@ == csv_append(file_exists, rows@),
{
    let mut out: Vec<u8> = Vec::new();
    if !file_exists {
        out.push(B_I);
        out.push(B_D);
        out.push(COMMA);
        out.push(B_N);
        out.push(B_A);
        out.push(B_M);
        out.push(B_E);
        out.push(COMMA);
        out.push(B_H);
        out.push(B_A);
        out.push(B_S);
        out.push(UNDERSCORE);
        out.push(B_C);
        out.push(B_A);
        out.push(B_R);
        out.push(B_G);
        out.push(B_O);
        out.push(UNDERSCORE);
        out.push(B_T);
        out.push(B_O);
        out.push(B_M);
        out.push(B_L);
        out.push(COMMA);
        out.push(B_H);
        out.push(B_A);
        out.push(B_S);
        out.push(UNDERSCORE);
        out.push(B_C);
        out.push(B_A);
        out.push(B_R);
        out.push(B_G);
        out.push(B_O);
        out.push(UNDERSCORE);
        out.push(B_L);
        out.push(B_O);
        out.push(B_C);
        out.push(B_K);
        out.push(LF);
        proof {
            assert(out@ =~= csv_header());
        }
    }
    let ghost base = out@;
    proof {
        if file_exists {
            assert(base =~= Seq::<u8>::empty());
        }
        assert(out@ =~= base + csv_rows(rows@.take(0)));
    }
    let mut i: usize = 0;
    while i < rows.len()
        invariant
            i <= rows@.len(),
            file_exists ==> base == Seq::<u8>::empty(),
            !file_exists ==> base == csv_header(),
            out@ == base + csv_rows(rows@.take(i as int)),
        decreases rows@.len() - i,
    {
        write_row(&mut out, &rows[i]);
        proof {
            assert(rows@.take(i as int) =~= rows@.take(i + 1).drop_last());
            assert(rows@.take(i + 1).last() == rows@[i as int]);
            assert(out@ =~= base + (csv_rows(rows@.take(i as int)) + csv_row(rows@[i as int])));
        }
        i = i + 1;
    }
    proof {
        assert(rows@.take(rows@.len() as int) =~= rows@);
        if file_exists {
            assert(out@ =~= csv_rows(rows@));
        }
    }
    out
}

} // verus!
