//! Labels and display strings, as ASCII byte sequences.
//!
//! Every identifier and display text the controller produces is built here:
//! the player label, the `zebra_<index>` target labels, and the score,
//! high-score and log lines with their embedded decimal counters.

use vstd::prelude::*;

verus! {

/// Decimal digit characters of `n`, most significant first, as ASCII bytes.
pub open spec fn dec_digits(n: nat) -> Seq<u8>
    decreases n,
{
    if n < 10 {
        seq![(n + 48) as u8]
    } else {
        dec_digits(n / 10).push((n % 10 + 48) as u8)
    }
}

/// The permanent player entity's identifier, `player`.
pub open spec fn player_label() -> Seq<u8> {
    seq!['p' as u8, 'l' as u8, 'a' as u8, 'y' as u8, 'e' as u8, 'r' as u8]
}

/// The identifier minted for the transient target with counter value `i`:
/// `zebra_<i>`.
pub open spec fn zebra_label(i: nat) -> Seq<u8> {
    seq!['z' as u8, 'e' as u8, 'b' as u8, 'r' as u8, 'a' as u8, '_' as u8] + dec_digits(i)
}

/// The score display string for a score of `n`: `Score: <n>`.
pub open spec fn score_text(n: nat) -> Seq<u8> {
    seq!['S' as u8, 'c' as u8, 'o' as u8, 'r' as u8, 'e' as u8, ':' as u8, ' ' as u8] + dec_digits(n)
}

/// The high-score display string written after a new best: `High score: <n>`.
/// The lower-case `score` differs from the start-up text by design.
pub open spec fn high_score_text(n: nat) -> Seq<u8> {
    seq!['H' as u8, 'i' as u8, 'g' as u8, 'h' as u8, ' ' as u8, 's' as u8, 'c' as u8, 'o' as u8, 'r' as u8, 'e' as u8, ':' as u8, ' ' as u8] + dec_digits(n)
}

/// The high-score display string the host creates at start-up: `High Score: 0`.
/// Its capital `Score` is never reproduced by any later update.
pub open spec fn initial_high_score_text() -> Seq<u8> {
    seq!['H' as u8, 'i' as u8, 'g' as u8, 'h' as u8, ' ' as u8, 'S' as u8, 'c' as u8, 'o' as u8, 'r' as u8, 'e' as u8, ':' as u8, ' ' as u8, '0' as u8]
}

/// The diagnostic line logged after a scoring collision: `Current score: <n>`.
pub open spec fn score_log_line(n: nat) -> Seq<u8> {
    seq![
        'C' as u8, 'u' as u8, 'r' as u8, 'r' as u8, 'e' as u8, 'n' as u8, 't' as u8, ' ' as u8, 's' as u8, 'c' as u8, 'o' as u8, 'r' as u8, 'e' as u8, ':' as u8, ' ' as u8,
    ] + dec_digits(n)
}

/// Appends the decimal digits of `n` to `out`.
pub fn push_dec_digits(out: &mut Vec<u8>, n: u64)
    ensures
        final(out)@ == old(out)@ + dec_digits(n as nat),
    decreases n,
{
    if n < 10 {
        out.push(n as u8 + 48);
        proof {
            assert(final(out)@ =~= old(out)@ + dec_digits(n as nat));
        }
    } else {
        push_dec_digits(out, n / 10);
        out.push((n % 10) as u8 + 48);
        proof {
            assert(final(out)@ =~= old(out)@ + dec_digits(n as nat));
        }
    }
}

/// The player identifier as a byte vector.
pub fn player_label_bytes() -> (out: Vec<u8>)
    ensures
        out@ == player_label(),
{
    let mut out: Vec<u8> = Vec::new();
    out.push('p' as u8);
    out.push('l' as u8);
    out.push('a' as u8);
    out.push('y' as u8);
    out.push('e' as u8);
    out.push('r' as u8);
    proof {
        assert(out@ =~= player_label());
    }
    out
}

/// The target identifier minted for counter value `i`, as a byte vector.
pub fn zebra_label_bytes(i: u64) -> (out: Vec<u8>)
    ensures
        out@ == zebra_label(i as nat),
{
    let mut out: Vec<u8> = Vec::new();
    out.push('z' as u8);
    out.push('e' as u8);
    out.push('b' as u8);
    out.push('r' as u8);
    out.push('a' as u8);
    out.push('_' as u8);
    proof {
        assert(out@ =~= seq!['z' as u8, 'e' as u8, 'b' as u8, 'r' as u8, 'a' as u8, '_' as u8]);
    }
    push_dec_digits(&mut out, i);
    out
}

/// The score display string for a score of `n`, as a byte vector.
pub fn score_text_bytes(n: u32) -> (out: Vec<u8>)
    ensures
        out@ == score_text(n as nat),
{
    let mut out: Vec<u8> = Vec::new();
    out.push('S' as u8);
    out.push('c' as u8);
    out.push('o' as u8);
    out.push('r' as u8);
    out.push('e' as u8);
    out.push(':' as u8);
    out.push(' ' as u8);
    proof {
        assert(out@ =~= seq!['S' as u8, 'c' as u8, 'o' as u8, 'r' as u8, 'e' as u8, ':' as u8, ' ' as u8]);
    }
    push_dec_digits(&mut out, n as u64);
    out
}

/// The high-score display string for a best of `n`, as a byte vector.
pub fn high_score_text_bytes(n: u32) -> (out: Vec<u8>)
    ensures
        out@ == high_score_text(n as nat),
{
    let mut out: Vec<u8> = Vec::new();
    out.push('H' as u8);
    out.push('i' as u8);
    out.push('g' as u8);
    out.push('h' as u8);
    out.push(' ' as u8);
    out.push('s' as u8);
    out.push('c' as u8);
    out.push('o' as u8);
    out.push('r' as u8);
    out.push('e' as u8);
    out.push(':' as u8);
    out.push(' ' as u8);
    proof {
        assert(out@ =~= seq!['H' as u8, 'i' as u8, 'g' as u8, 'h' as u8, ' ' as u8, 's' as u8, 'c' as u8, 'o' as u8, 'r' as u8, 'e' as u8, ':' as u8, ' ' as u8]);
    }
    push_dec_digits(&mut out, n as u64);
    out
}

/// The high-score display string the host shows at start-up, as a byte vector.
pub fn initial_high_score_text_bytes() -> (out: Vec<u8>)
    ensures
        out@ == initial_high_score_text(),
{
    let mut out: Vec<u8> = Vec::new();
    out.push('H' as u8);
    out.push('i' as u8);
    out.push('g' as u8);
    out.push('h' as u8);
    out.push(' ' as u8);
    out.push('S' as u8);
    out.push('c' as u8);
    out.push('o' as u8);
    out.push('r' as u8);
    out.push('e' as u8);
    out.push(':' as u8);
    out.push(' ' as u8);
    out.push('0' as u8);
    proof {
        assert(out@ =~= initial_high_score_text());
    }
    out
}

/// The diagnostic log line for a score of `n`, as a byte vector.
pub fn score_log_line_bytes(n: u32) -> (out: Vec<u8>)
    ensures
        out@ == score_log_line(n as nat),
{
    let mut out: Vec<u8> = Vec::new();
    out.push('C' as u8);
    out.push('u' as u8);
    out.push('r' as u8);
    out.push('r' as u8);
    out.push('e' as u8);
    out.push('n' as u8);
    out.push('t' as u8);
    out.push(' ' as u8);
    out.push('s' as u8);
    out.push('c' as u8);
    out.push('o' as u8);
    out.push('r' as u8);
    out.push('e' as u8);
    out.push(':' as u8);
    out.push(' ' as u8);
    proof {
        assert(out@ =~= seq![
            'C' as u8, 'u' as u8, 'r' as u8, 'r' as u8, 'e' as u8, 'n' as u8, 't' as u8, ' ' as u8, 's' as u8, 'c' as u8, 'o' as u8, 'r' as u8, 'e' as u8, ':' as u8,
            ' ' as u8,
        ]);
    }
    push_dec_digits(&mut out, n as u64);
    out
}

/// Whether two byte vectors hold the same bytes.
pub fn bytes_eq(a: &Vec<u8>, b: &Vec<u8>) -> (r: bool)
    ensures
        r == (a@ == b@),
{
    if a.len() != b.len() {
        return false;
    }
    let mut i: usize = 0;
    while i < a.len()
        invariant
            i <= a@.len(),
            a@.len() == b@.len(),
            forall|j: int| 0 <= j < i ==> a@[j] == b@[j],
        decreases a@.len() - i,
    {
        if a[i] != b[i] {
            return false;
        }
        i += 1;
    }
    proof {
        assert(a@ =~= b@);
    }
    true
}

/// No target identifier is the player identifier: the two differ in their
/// first byte.
pub proof fn lemma_zebra_label_not_player(i: nat)
    ensures
        zebra_label(i) != player_label(),
{
    assert(zebra_label(i)[0] == 'z' as u8);
    assert(player_label()[0] == 'p' as u8);
}

} // verus!
