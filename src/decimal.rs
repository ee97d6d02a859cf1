use vstd::prelude::*;

verus! {

/// The ASCII byte of a decimal digit.
pub open spec fn digit_byte(d: nat) -> u8 {
    (48 + d % 10) as u8
}

/// The decimal digits of `n`, most significant first, with no leading zero.
pub open spec fn dec_bytes(n: nat) -> Seq<u8>
    decreases n,
{
    if n < 10 {
        seq![digit_byte(n)]
    } else {
        dec_bytes(n / 10).push(digit_byte(n % 10))
    }
}

/// The lowest `width` decimal digits of `n`, padded with leading zeros.
pub open spec fn fixed_bytes(n: nat, width: nat) -> Seq<u8>
    decreases width,
{
    if width == 0 {
        Seq::empty()
    } else {
        fixed_bytes(n / 10, (width - 1) as nat).push(digit_byte(n % 10))
    }
}

/// Appends the decimal form of `n`.
pub fn push_decimal(out: &mut Vec<u8>, n: u64)
    ensures
        final(out)@ == old(out)@ + dec_bytes(n as nat),
    decreases n,
{
    if n >= 10 {
        push_decimal(out, n / 10);
    }
    out.push(48u8 + (n % 10) as u8);
    proof {
        assert(final(out)@ == old(out)@ + dec_bytes(n as nat));
    }
}

/// Appends the lowest `width` decimal digits of `n`, zero-padded.
pub fn push_fixed(out: &mut Vec<u8>, n: u64, width: u8)
    ensures
        final(out)@ == old(out)@ + fixed_bytes(n as nat, width as nat),
    decreases width,
{
    if width > 0 {
        push_fixed(out, n / 10, width - 1);
        out.push(48u8 + (n % 10) as u8);
    }
    proof {
        assert(final(out)@ == old(out)@ + fixed_bytes(n as nat, width as nat));
    }
}

/// The characters of a sequence of ASCII bytes.
pub open spec fn ascii_chars(b: Seq<u8>) -> Seq<char> {
    b.map_values(|x: u8| x as char)
}

/// A byte is a decimal digit or a point.
pub open spec fn is_numeral_byte(b: u8) -> bool {
    48 <= b <= 57 || b == 46
}

/// The one-character string of a digit or a point.
fn numeral_str(b: u8) -> (r: &'static str)
    requires
        is_numeral_byte(b),
    ensures
        r@ == seq![b as char],
{
    let r = match b {
        48 => "0",
        49 => "1",
        50 => "2",
        51 => "3",
        52 => "4",
        53 => "5",
        54 => "6",
        55 => "7",
        56 => "8",
        57 => "9",
        _ => ".",
    };
    proof {
        reveal_strlit("0");
        reveal_strlit("1");
        reveal_strlit("2");
        reveal_strlit("3");
        reveal_strlit("4");
        reveal_strlit("5");
        reveal_strlit("6");
        reveal_strlit("7");
        reveal_strlit("8");
        reveal_strlit("9");
        reveal_strlit(".");
        assert(r@ =~= seq![b as char]);
    }
    r
}

/// The text of a moment given as seconds and nanoseconds since the Unix
/// epoch: `secs.nnnnnnnnn`.
pub open spec fn timestamp_text(secs: nat, nanos: nat) -> Seq<char> {
    ascii_chars(dec_bytes(secs) + seq![46u8] + fixed_bytes(nanos, 9))
}

proof fn lemma_dec_numeral(n: nat)
    ensures
        forall|i: int| 0 <= i < dec_bytes(n).len() ==> #[trigger] is_numeral_byte(dec_bytes(n)[i]),
    decreases n,
{
    if n >= 10 {
        lemma_dec_numeral(n / 10);
        let p = dec_bytes(n / 10);
        assert forall|i: int| 0 <= i < dec_bytes(n).len() implies #[trigger] is_numeral_byte(
            dec_bytes(n)[i],
        ) by {
            if i < p.len() {
                assert(dec_bytes(n)[i] == p[i]);
            }
        }
    }
}

proof fn lemma_fixed_numeral(n: nat, w: nat)
    ensures
        forall|i: int| 0 <= i < fixed_bytes(n, w).len() ==> #[trigger] is_numeral_byte(fixed_bytes(n, w)[i]),
    decreases w,
{
    if w > 0 {
        lemma_fixed_numeral(n / 10, (w - 1) as nat);
        let p = fixed_bytes(n / 10, (w - 1) as nat);
        assert forall|i: int| 0 <= i < fixed_bytes(n, w).len() implies #[trigger] is_numeral_byte(
            fixed_bytes(n, w)[i],
        ) by {
            if i < p.len() {
                assert(fixed_bytes(n, w)[i] == p[i]);
            }
        }
    }
}

/// Formats a moment for the log. `since_epoch` is the time elapsed since
/// the Unix epoch as whole seconds and the nanoseconds beyond them, or
/// `None` for a moment before the epoch, which reads `unknown_time`.
pub fn format_timestamp(since_epoch: Option<(u64, u32)>) -> (r: String)
    requires
        since_epoch matches Some((_, nanos)) ==> nanos < 1_000_000_000,
    ensures
        r@ == match since_epoch {
            Some((secs, nanos)) => timestamp_text(secs as nat, nanos as nat),
            None => "unknown_time"@,
        },
{
    match since_epoch {
        None => String::from_str("unknown_time"),
        Some((secs, nanos)) => {
            let mut bytes: Vec<u8> = Vec::new();
            push_decimal(&mut bytes, secs);
            bytes.push(46u8);
            push_fixed(&mut bytes, nanos as u64, 9);
            proof {
                lemma_dec_numeral(secs as nat);
                lemma_fixed_numeral(nanos as nat, 9);
                assert(bytes@ =~= dec_bytes(secs as nat) + seq![46u8] + fixed_bytes(nanos as nat, 9));
                assert forall|i: int| 0 <= i < bytes@.len() implies is_numeral_byte(#[trigger] bytes@[i]) by {
                    let d = dec_bytes(secs as nat);
                    if i < d.len() {
                        assert(bytes@[i] == d[i]);
                    } else if i > d.len() {
                        assert(bytes@[i] == fixed_bytes(nanos as nat, 9)[i - d.len() - 1]);
                    }
                }
            }
            let mut text = String::new();
            let mut i: usize = 0;
            while i < bytes.len()
                invariant
                    i <= bytes@.len(),
                    forall|k: int| 0 <= k < bytes@.len() ==> #[trigger] is_numeral_byte(bytes@[k]),
                    text@ == ascii_chars(bytes@.subrange(0, i as int)),
                decreases bytes@.len() - i,
            {
                text.append(numeral_str(bytes[i]));
                proof {
                    assert(bytes@.subrange(0, i + 1) =~= bytes@.subrange(0, i as int).push(bytes@[i as int]));
                    assert(text@ =~= ascii_chars(bytes@.subrange(0, i + 1)));
                }
                i += 1;
            }
            proof {
                assert(bytes@.subrange(0, bytes@.len() as int) =~= bytes@);
            }
            text
        },
    }
}

} // verus!
