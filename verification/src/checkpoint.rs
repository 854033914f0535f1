//! Framing of the on-disk checkpoint file.
//!
//! The checkpoint stores the last processed cursor per forge as a small,
//! pretty-printed JSON object with a trailing newline. The renderer and the
//! parser here pin that format down byte for byte: `parse_state` accepts
//! exactly the strings `render_state` produces, and returns the cursor that
//! was rendered.

use vstd::prelude::*;

use crate::ascii::{B_B, B_CAP_G, B_H, B_I, B_T, B_U, COLON, LBRACE, LF, QUOTE, RBRACE, SPACE};
use crate::num::{
    all_digits, dec_rep, dec_val, is_digit, lemma_dec_rep_digits, lemma_dec_rep_no_leading_zero,
    lemma_dec_rep_unique, lemma_dec_val_of_rep, parse_usize, render_usize, ZERO_DIGIT,
};
use vstd::slice::slice_subrange;

verus! {

/// The fixed bytes before the cursor value: `{`, newline, two-space indent,
/// the quoted forge key `"Github"`, colon, space.
pub open spec fn state_prefix() -> Seq<u8> {
    seq![LBRACE, LF, SPACE, SPACE, QUOTE, B_CAP_G, B_I, B_T, B_H, B_U, B_B, QUOTE, COLON, SPACE]
}

/// The fixed bytes after the cursor value: newline, `}`, trailing newline.
pub open spec fn state_suffix() -> Seq<u8> {
    seq![LF, RBRACE, LF]
}

/// The exact content of the checkpoint file for cursor `n`.
pub open spec fn state_json(n: nat) -> Seq<u8> {
    state_prefix() + dec_rep(n) + state_suffix()
}

/// Serializes the cursor for the checkpoint file.
pub fn render_state(last_id: usize) -> (out: Vec<u8>)
    ensures
        out@ == state_json(last_id as nat),
{
    let mut out: Vec<u8> = Vec::new();
    out.push(LBRACE);
    out.push(LF);
    out.push(SPACE);
    out.push(SPACE);
    out.push(QUOTE);
    out.push(B_CAP_G);
    out.push(B_I);
    out.push(B_T);
    out.push(B_H);
    out.push(B_U);
    out.push(B_B);
    out.push(QUOTE);
    out.push(COLON);
    out.push(SPACE);
    proof {
        assert(out@ =~= state_prefix());
    }
    let mut digits = render_usize(last_id);
    out.append(&mut digits);
    out.push(LF);
    out.push(RBRACE);
    out.push(LF);
    proof {
        assert(out@ =~= state_json(last_id as nat));
    }
    out
}

/// In a well-formed checkpoint, the maximal digit run starting right after
/// the prefix is exactly the rendered cursor.
proof fn lemma_run_is_rep(s: Seq<u8>, j: int, n: nat)
    requires
        s == state_json(n),
        14 <= j <= s.len(),
        all_digits(s.subrange(14, j)),
        j == s.len() || !is_digit(s[j]),
    ensures
        j == 14 + dec_rep(n).len(),
        s.subrange(14, j) == dec_rep(n),
{
    lemma_dec_rep_digits(n);
    let rep = dec_rep(n);
    let end = 14 + rep.len() as int;
    assert(s.len() == end + 3);
    assert(forall|k: int| 0 <= k < rep.len() ==> s[14 + k] == #[trigger] rep[k]);
    assert(s[end] == LF);
    if j < end {
        assert(is_digit(s[j]));
        assert(j < s.len());
    }
    if j > end {
        assert(s.subrange(14, j)[end - 14] == s[end]);
        assert(is_digit(s[end]));
    }
    assert(j == end);
    assert(s.subrange(14, j) =~= rep);
}

/// Reads a checkpoint file body. Returns the cursor exactly when the bytes
/// are a checkpoint this system writes; any other content is rejected.
pub fn parse_state(s: &[u8]) -> (r: Option<usize>)
    ensures
        r matches Some(v) ==> s@ == state_json(v as nat),
        forall|n: usize| s@ == state_json(n as nat) ==> r == Some(n),
{
    proof {
        assert forall|n: usize| s@ == state_json(n as nat) implies s@.len() >= 18 by {
            lemma_dec_rep_digits(n as nat);
        }
    }
    if s.len() < 18 {
        return None;
    }
    let prefix_ok = s[0] == LBRACE && s[1] == LF && s[2] == SPACE && s[3] == SPACE && s[4] == QUOTE
        && s[5] == B_CAP_G && s[6] == B_I && s[7] == B_T && s[8] == B_H && s[9] == B_U && s[10]
        == B_B && s[11] == QUOTE && s[12] == COLON && s[13] == SPACE;
    if !prefix_ok {
        proof {
            assert forall|n: usize| s@ != state_json(n as nat) by {
                if s@ == state_json(n as nat) {
                    lemma_dec_rep_digits(n as nat);
                    assert(forall|k: int|
                        0 <= k < 14 ==> state_json(n as nat)[k] == #[trigger] state_prefix()[k]);
                }
            }
        }
        return None;
    }
    let mut j: usize = 14;
    while j < s.len() && s[j] >= ZERO_DIGIT && s[j] <= ZERO_DIGIT + 9
        invariant
            14 <= j <= s@.len(),
            all_digits(s@.subrange(14, j as int)),
            s@.len() >= 18,
        decreases s@.len() - j,
    {
        proof {
            assert(s@.subrange(14, j + 1) =~= s@.subrange(14, j as int).push(s@[j as int]));
        }
        j = j + 1;
    }
    proof {
        assert(j == s@.len() || !is_digit(s@[j as int]));
    }
    if j == 14 {
        proof {
            assert forall|n: usize| s@ != state_json(n as nat) by {
                if s@ == state_json(n as nat) {
                    lemma_dec_rep_digits(n as nat);
                    assert(s@[14] == dec_rep(n as nat)[0]);
                }
            }
        }
        return None;
    }
    let run = slice_subrange(s, 14, j);
    if run.len() > 1 && run[0] == ZERO_DIGIT {
        proof {
            assert forall|n: usize| s@ != state_json(n as nat) by {
                if s@ == state_json(n as nat) {
                    lemma_run_is_rep(s@, j as int, n as nat);
                    lemma_dec_rep_no_leading_zero(n as nat);
                }
            }
        }
        return None;
    }
    let value = match parse_usize(run) {
        Some(v) => v,
        None => {
            proof {
                assert forall|n: usize| s@ != state_json(n as nat) by {
                    if s@ == state_json(n as nat) {
                        lemma_run_is_rep(s@, j as int, n as nat);
                        lemma_dec_val_of_rep(n as nat);
                    }
                }
            }
            return None;
        },
    };
    let tail_ok = s.len() - j == 3 && s[j] == LF && s[j + 1] == RBRACE && s[j + 2] == LF;
    if !tail_ok {
        proof {
            assert forall|n: usize| s@ != state_json(n as nat) by {
                if s@ == state_json(n as nat) {
                    lemma_run_is_rep(s@, j as int, n as nat);
                    let end = j as int;
                    assert(s@[end] == LF && s@[end + 1] == RBRACE && s@[end + 2] == LF);
                    assert(s@.len() == end + 3);
                }
            }
        }
        return None;
    }
    proof {
        lemma_dec_rep_unique(run@, value as nat);
        assert(s@ =~= s@.subrange(0, 14) + s@.subrange(14, j as int) + s@.subrange(
            j as int,
            s@.len() as int,
        ));
        assert(s@.subrange(0, 14) =~= state_prefix());
        assert(s@.subrange(j as int, s@.len() as int) =~= state_suffix());
        assert(s@ == state_json(value as nat));
        assert forall|n: usize| s@ == state_json(n as nat) implies Some(value) == Some(n) by {
            lemma_run_is_rep(s@, j as int, n as nat);
            lemma_dec_val_of_rep(n as nat);
        }
    }
    Some(value)
}

/// Round trip: a checkpoint written for cursor `n` is read back as `n`,
/// which is what lets a restarted crawl resume from its persisted cursor.
/// The premises are exactly what `render_state` and `parse_state` ensure
/// about a write followed by a read of the same bytes.
pub proof fn lemma_checkpoint_round_trip(n: usize, r: Option<usize>)
    requires
        r matches Some(v) ==> state_json(n as nat) == state_json(v as nat),
        forall|m: usize| state_json(n as nat) == state_json(m as nat) ==> r == Some(m),
    ensures
        r == Some(n),
{
    assert(state_json(n as nat) == state_json(n as nat));
    assert(r == Some(n));
}

} // verus!
