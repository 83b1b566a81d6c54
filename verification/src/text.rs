//! The wording of the events that the simulation reports.
use vstd::prelude::*;
use vstd::string::StringExecFns;

verus! {

/// The text of one decimal digit.
pub open spec fn digit_text(d: int) -> Seq<char> {
    if d == 0 {
        "0"@
    } else if d == 1 {
        "1"@
    } else if d == 2 {
        "2"@
    } else if d == 3 {
        "3"@
    } else if d == 4 {
        "4"@
    } else if d == 5 {
        "5"@
    } else if d == 6 {
        "6"@
    } else if d == 7 {
        "7"@
    } else if d == 8 {
        "8"@
    } else {
        "9"@
    }
}

/// A natural number in decimal, without leading zeros.
pub open spec fn natural_text(n: nat) -> Seq<char>
    decreases n,
{
    if n < 10 {
        digit_text(n as int)
    } else {
        natural_text(n / 10) + digit_text((n % 10) as int)
    }
}

/// An integer in decimal, with a minus sign where it is negative.
pub open spec fn decimal_text(n: int) -> Seq<char> {
    if n < 0 {
        "-"@ + natural_text((-n) as nat)
    } else {
        natural_text(n as nat)
    }
}

/// `"<attacker> hits <victim> for <amount> dmg"`
pub open spec fn hit_text(attacker: Seq<char>, victim: Seq<char>, amount: int) -> Seq<char> {
    attacker + " hits "@ + victim + " for "@ + decimal_text(amount) + " dmg"@
}

/// `"<attacker> is unable to hurt <victim>"`
pub open spec fn no_effect_text(attacker: Seq<char>, victim: Seq<char>) -> Seq<char> {
    attacker + " is unable to hurt "@ + victim
}

/// `"<name> (<hp>/<max_hp>) received <amount> dmg"`
pub open spec fn damage_text(name: Seq<char>, hp: int, max_hp: int, amount: int) -> Seq<char> {
    name + " ("@ + decimal_text(hp) + "/"@ + decimal_text(max_hp) + ") received "@ + decimal_text(
        amount,
    ) + " dmg"@
}

/// `"<name> dies."`
pub open spec fn death_text(name: Seq<char>) -> Seq<char> {
    name + " dies."@
}

/// What is reported when the player is found dead.
pub open spec fn player_death_text() -> Seq<char> {
    "You are dead. Not a big surprise!"@
}

fn digit(d: u8) -> (s: &'static str)
    requires
        d < 10,
    ensures
        s@ == digit_text(d as int),
{
    if d == 0 {
        "0"
    } else if d == 1 {
        "1"
    } else if d == 2 {
        "2"
    } else if d == 3 {
        "3"
    } else if d == 4 {
        "4"
    } else if d == 5 {
        "5"
    } else if d == 6 {
        "6"
    } else if d == 7 {
        "7"
    } else if d == 8 {
        "8"
    } else {
        "9"
    }
}

fn natural(n: u128) -> (s: String)
    ensures
        s@ == natural_text(n as nat),
    decreases n,
{
    if n < 10 {
        String::from_str(digit(n as u8))
    } else {
        let mut s = natural(n / 10);
        s.append(digit((n % 10) as u8));
        s
    }
}

/// Writes an integer in decimal.
pub fn decimal(n: i128) -> (s: String)
    ensures
        s@ == decimal_text(n as int),
{
    if n < 0 {
        let magnitude: u128 = (-(n + 1)) as u128 + 1;
        let mut s = String::from_str("-");
        let digits = natural(magnitude);
        s.append(digits.as_str());
        s
    } else {
        natural(n as u128)
    }
}

/// Writes `hit_text`.
pub fn hit_message(attacker: &str, victim: &str, amount: i128) -> (s: String)
    ensures
        s@ == hit_text(attacker@, victim@, amount as int),
{
    let mut s = String::from_str(attacker);
    s.append(" hits ");
    s.append(victim);
    s.append(" for ");
    let amount_text = decimal(amount);
    s.append(amount_text.as_str());
    s.append(" dmg");
    s
}

/// Writes `no_effect_text`.
pub fn no_effect_message(attacker: &str, victim: &str) -> (s: String)
    ensures
        s@ == no_effect_text(attacker@, victim@),
{
    let mut s = String::from_str(attacker);
    s.append(" is unable to hurt ");
    s.append(victim);
    s
}

/// Writes `damage_text`.
pub fn damage_message(name: &str, hp: i128, max_hp: i128, amount: i128) -> (s: String)
    ensures
        s@ == damage_text(name@, hp as int, max_hp as int, amount as int),
{
    let mut s = String::from_str(name);
    s.append(" (");
    let hp_text = decimal(hp);
    s.append(hp_text.as_str());
    s.append("/");
    let max_text = decimal(max_hp);
    s.append(max_text.as_str());
    s.append(") received ");
    let amount_text = decimal(amount);
    s.append(amount_text.as_str());
    s.append(" dmg");
    s
}

/// Writes `death_text`.
pub fn death_message(name: &str) -> (s: String)
    ensures
        s@ == death_text(name@),
{
    let mut s = String::from_str(name);
    s.append(" dies.");
    s
}

/// Writes `player_death_text`.
pub fn player_death_message() -> (s: String)
    ensures
        s@ == player_death_text(),
{
    String::from_str("You are dead. Not a big surprise!")
}

} // verus!
