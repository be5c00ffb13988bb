//! Sample payloads: a transfer of an amount between two distinct participants.
use crate::block::{decimal, decimal_text};
use vstd::prelude::*;
use vstd::string::*;

verus! {

/// Number of participants that transfers are drawn between.
pub const PARTICIPANT_COUNT: usize = 7;

/// Largest amount, in thousandths of a coin.
pub const MAX_AMOUNT_MILLIS: u64 = 10000;

/// The participants' names, by position.
pub open spec fn participants() -> Seq<Seq<char>> {
    seq!["Alice"@, "Bob"@, "Charlie"@, "Dave"@, "Eve"@, "Frank"@, "Grace"@]
}

/// The name of participant `i`.
pub fn participant_name(i: usize) -> (r: &'static str)
    requires
        i < PARTICIPANT_COUNT,
    ensures
        r@ == participants()[i as int],
{
    if i == 0 {
        "Alice"
    } else if i == 1 {
        "Bob"
    } else if i == 2 {
        "Charlie"
    } else if i == 3 {
        "Dave"
    } else if i == 4 {
        "Eve"
    } else if i == 5 {
        "Frank"
    } else {
        "Grace"
    }
}

/// The receiver drawn for a transfer, moved to the next participant (cyclically)
/// when it is the sender.
pub fn distinct_receiver(sender: usize, receiver: usize, count: usize) -> (r: usize)
    requires
        receiver < count,
    ensures
        r == (if sender == receiver { ((receiver + 1) % (count as int)) as usize } else { receiver }),
        r < count,
        count >= 2 ==> r != sender,
{
    if sender == receiver {
        proof {
            if receiver + 1 < count {
                vstd::arithmetic::div_mod::lemma_small_mod((receiver + 1) as nat, count as nat);
            } else {
                vstd::arithmetic::div_mod::lemma_mod_self_0(count as int);
            }
        }
        (receiver + 1) % count
    } else {
        receiver
    }
}

/// `n` below 1000 written with exactly three digits.
pub open spec fn three_digits(n: nat) -> Seq<char> {
    if n < 10 {
        "00"@ + decimal(n)
    } else if n < 100 {
        "0"@ + decimal(n)
    } else {
        decimal(n)
    }
}

/// An amount given in thousandths, written in coins with three decimals.
pub open spec fn amount_text(millis: nat) -> Seq<char> {
    decimal(millis / 1000) + "."@ + three_digits(millis % 1000)
}

/// The payload describing a transfer.
pub open spec fn transfer_text(sender: Seq<char>, receiver: Seq<char>, millis: nat) -> Seq<char> {
    sender + " is transferring "@ + amount_text(millis) + " Coins to "@ + receiver
}

/// The amount given in thousandths, written in coins with three decimals.
pub fn format_amount(millis: u64) -> (r: String)
    ensures
        r@ == amount_text(millis as nat),
{
    let mut text = decimal_text(millis / 1000);
    text.append(".");
    let fraction = millis % 1000;
    if fraction < 10 {
        text.append("00");
    } else if fraction < 100 {
        text.append("0");
    }
    let digits = decimal_text(fraction);
    text.append(digits.as_str());
    text
}

/// The payload describing a transfer of `millis` thousandths of a coin from
/// participant `sender` to participant `receiver`.
pub fn transaction_text(sender: usize, receiver: usize, millis: u64) -> (r: String)
    requires
        sender < PARTICIPANT_COUNT,
        receiver < PARTICIPANT_COUNT,
    ensures
        r@ == transfer_text(participants()[sender as int], participants()[receiver as int], millis as nat),
{
    let mut text = String::from_str(participant_name(sender));
    text.append(" is transferring ");
    let amount = format_amount(millis);
    text.append(amount.as_str());
    text.append(" Coins to ");
    text.append(participant_name(receiver));
    text
}

/// Relies on rand's `thread_rng` and `Rng::gen_range`: a value drawn from
/// `low..high`, which must not be empty.
#[verifier::external_body]
fn random_in_range(low: u64, high: u64) -> (r: u64)
    requires
        low < high,
    ensures
        low <= r < high,
{
    rand::Rng::gen_range(&mut rand::thread_rng(), low..high)
}

/// A random transfer between two distinct participants, of an amount from
/// 0.001 to 10.000 coins.
pub fn generate_random_transaction() -> (r: String)
    ensures
        exists|sender: int, receiver: int, millis: nat|
            0 <= sender < PARTICIPANT_COUNT && 0 <= receiver < PARTICIPANT_COUNT && sender
                != receiver && 1 <= millis <= MAX_AMOUNT_MILLIS && r@ == #[trigger] transfer_text(
                participants()[sender],
                participants()[receiver],
                millis,
            ),
{
    let count = PARTICIPANT_COUNT as u64;
    let sender = random_in_range(0, count) as usize;
    let drawn = random_in_range(0, count) as usize;
    let receiver = distinct_receiver(sender, drawn, PARTICIPANT_COUNT);
    let millis = random_in_range(1, MAX_AMOUNT_MILLIS + 1);
    transaction_text(sender, receiver, millis)
}

} // verus!
