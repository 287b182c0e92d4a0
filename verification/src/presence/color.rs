//! Colors for users.

use crate::ident::ReplicaId;
use vstd::prelude::*;
use vstd::string::StringExecFns;

verus! {

/// The decimal digit of a number below ten.
pub open spec fn digit(n: nat) -> char {
    (48 + n) as char
}

/// The decimal form of a number.
pub open spec fn decimal(n: nat) -> Seq<char>
    decreases n,
{
    if n < 10 {
        seq![digit(n)]
    } else {
        decimal(n / 10).push(digit(n % 10))
    }
}

/// The hue of a replica: the first two bytes of its id, as a number modulo 360.
pub open spec fn hue_of(replica: ReplicaId) -> nat {
    ((replica.0.bits >> 112) % 360) as nat
}

/// The color of a replica, by its hue.
pub open spec fn color_of(replica: ReplicaId) -> Seq<char> {
    "hsl("@ + decimal(hue_of(replica)) + ", 70%, 50%)"@
}

/// The decimal form of a number.
fn decimal_text(n: u32) -> (text: String)
    ensures
        text@ == decimal(n as nat),
    decreases n,
{
    if n < 10 {
        let mut text = String::new();
        text.push((48u8 + n as u8) as char);
        assert(text@ =~= seq![digit(n as nat)]);
        text
    } else {
        let mut text = decimal_text(n / 10);
        text.push((48u8 + (n % 10) as u8) as char);
        text
    }
}

/// Generate a consistent color for a replica ID.
pub fn generate_color(replica_id: &ReplicaId) -> (color: String)
    ensures
        color@ == color_of(*replica_id),
{
    let bits = replica_id.0.bits;
    assert((bits >> 112) % 360 < 360) by (bit_vector);
    let hue: u32 = ((bits >> 112) % 360) as u32;
    let mut color = "hsl(".to_owned();
    let number = decimal_text(hue);
    color.append(number.as_str());
    color.append(", 70%, 50%)");
    color
}

/// A hue is below 360, so its decimal form has one to three digits.
pub proof fn hues_are_in_range(replica: ReplicaId)
    ensures
        hue_of(replica) < 360,
        1 <= decimal(hue_of(replica)).len() <= 3,
{
    let bits = replica.0.bits;
    assert((bits >> 112) % 360 < 360) by (bit_vector);
    reveal_with_fuel(decimal, 3);
}

/// The decimal form of a number has its last digit last, and the form of the tenth of the
/// number before it.
pub proof fn decimals_are_written_digit_by_digit(n: nat)
    ensures
        decimal(n).last() as int == '0' as int + n % 10,
        n < 10 ==> decimal(n).len() == 1,
        n >= 10 ==> decimal(n).drop_last() == decimal(n / 10),
{
    if n >= 10 {
        assert(decimal(n).drop_last() =~= decimal(n / 10));
    }
}

/// The color of a replica has the hue that its first two bytes give, and is otherwise the
/// same for all.
pub proof fn colors_differ_by_hue(replica: ReplicaId)
    ensures
        hue_of(replica) == (replica.0.bits / 0x1_0000_0000_0000_0000_0000_0000_0000) % 360,
        color_of(replica) == "hsl("@ + decimal(hue_of(replica)) + ", 70%, 50%)"@,
{
    let bits = replica.0.bits;
    assert(bits >> 112 == bits / 0x1_0000_0000_0000_0000_0000_0000_0000) by (bit_vector);
}

} // verus!
