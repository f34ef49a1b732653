//! The structured lines of the optional timing log: one record per applied
//! message and per flush, carrying the epoch and the performance counters.
//! Only the text is built here; appending it to the sink is the host's
//! work, and a failure there never affects a call's outcome.

use vstd::prelude::*;

use crate::codec::push_char;

verus! {

/// The decimal digit character for a value below ten.
pub open spec fn digit_char(d: nat) -> char {
    ((48 + d) as u32) as char
}

/// The decimal digits of a number, most significant first.
pub open spec fn dec_digits(v: nat) -> Seq<char>
    decreases v,
{
    if v < 10 {
        seq![digit_char(v)]
    } else {
        dec_digits(v / 10).push(digit_char(v % 10))
    }
}

/// Renders a number in decimal.
pub fn decimal_string(v: u64) -> (s: String)
    ensures
        s@ == dec_digits(v as nat),
{
    if v == 0 {
        let mut s = String::new();
        push_char(&mut s, char_of_digit(0));
        proof {
            assert(Seq::<char>::empty().push(digit_char(0)) =~= dec_digits(0));
        }
        return s;
    }
    let mut rev: Vec<char> = Vec::new();
    let mut x: u64 = v;
    proof {
        assert(rev@.reverse() =~= Seq::<char>::empty());
        assert(dec_digits(v as nat) + rev@.reverse() =~= dec_digits(v as nat));
    }
    while x > 0
        invariant
            x > 0 ==> dec_digits(v as nat) == dec_digits(x as nat) + rev@.reverse(),
            x == 0 ==> dec_digits(v as nat) == rev@.reverse(),
        decreases x,
    {
        let d = (x % 10) as u8;
        let ghost rev_old = rev@;
        rev.push(char_of_digit(d));
        let ghost x_old = x;
        x = x / 10;
        proof {
            assert(rev@.reverse() =~= seq![digit_char((x_old % 10) as nat)] + rev_old.reverse());
            if x_old < 10 {
                assert(dec_digits(x_old as nat) == seq![digit_char(x_old as nat)]);
                assert(x_old % 10 == x_old);
                assert(dec_digits(v as nat) =~= rev@.reverse());
            } else {
                assert(dec_digits(x_old as nat) == dec_digits((x_old / 10) as nat).push(
                    digit_char((x_old % 10) as nat),
                ));
                assert(dec_digits((x_old / 10) as nat).push(digit_char((x_old % 10) as nat))
                    + rev_old.reverse() =~= dec_digits((x_old / 10) as nat) + rev@.reverse());
            }
        }
    }
    let mut s = String::new();
    let mut i: usize = rev.len();
    while i > 0
        invariant
            i <= rev@.len(),
            s@ == rev@.subrange(i as int, rev@.len() as int).reverse(),
        decreases i,
    {
        i = i - 1;
        push_char(&mut s, rev[i]);
        proof {
            assert(s@ =~= rev@.subrange(i as int, rev@.len() as int).reverse());
        }
    }
    proof {
        assert(rev@.subrange(0, rev@.len() as int) =~= rev@);
    }
    s
}

/// Converts one digit value to its character.
fn char_of_digit(d: u8) -> (c: char)
    requires
        d < 10,
    ensures
        c == digit_char(d as nat),
{
    let c = char::from_u32(48 + d as u32);
    match c {
        Some(c) => c,
        None => ' ',
    }
}

/// The text of one timing record: its kind tag, the epoch, the gas spent
/// and the wall-clock nanoseconds, in the fixed field order.
pub open spec fn timing_line_text(kind: Seq<char>, epoch: u64, gas: u64, nanos: u64) -> Seq<char> {
    "{\"type\":\""@ + kind + "\",\"epoch\":"@ + dec_digits(epoch as nat) + ",\"gas\":"@
        + dec_digits(gas as nat) + ",\"time\":"@ + dec_digits(nanos as nat) + "}"@
}

/// Builds one timing record.
pub fn timing_line(kind: &str, epoch: u64, gas: u64, nanos: u64) -> (line: String)
    ensures
        line@ == timing_line_text(kind@, epoch, gas, nanos),
{
    let mut line = String::new();
    line.append("{\"type\":\"");
    line.append(kind);
    line.append("\",\"epoch\":");
    let epoch_digits = decimal_string(epoch);
    line.append(epoch_digits.as_str());
    line.append(",\"gas\":");
    let gas_digits = decimal_string(gas);
    line.append(gas_digits.as_str());
    line.append(",\"time\":");
    let nanos_digits = decimal_string(nanos);
    line.append(nanos_digits.as_str());
    line.append("}");
    proof {
        assert(Seq::<char>::empty() + "{\"type\":\""@ =~= "{\"type\":\""@);
        assert(line@ =~= timing_line_text(kind@, epoch, gas, nanos));
    }
    line
}

} // verus!
