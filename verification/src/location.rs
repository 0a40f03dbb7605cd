//! Key addressing: where the value of a key is kept.
//!
//! A key is kept in one file under the storage root. The file's name holds
//! the key and the epoch of the build, so that a later build, which has
//! another epoch, finds none of the files of this one.

use crate::text::string_of;
use vstd::prelude::*;

verus! {

/// The character that stands for a digit below ten.
pub open spec fn digit(d: nat) -> char {
    if d == 0 {
        '0'
    } else if d == 1 {
        '1'
    } else if d == 2 {
        '2'
    } else if d == 3 {
        '3'
    } else if d == 4 {
        '4'
    } else if d == 5 {
        '5'
    } else if d == 6 {
        '6'
    } else if d == 7 {
        '7'
    } else if d == 8 {
        '8'
    } else {
        '9'
    }
}

/// Whether `c` is one of the ten digits.
pub open spec fn is_digit(c: char) -> bool {
    exists|d: nat| d < 10 && c == #[trigger] digit(d)
}

/// `n` written in base ten, without leading zeros.
pub open spec fn decimal(n: nat) -> Seq<char>
    decreases n,
{
    if n < 10 {
        seq![digit(n)]
    } else {
        decimal(n / 10).push(digit(n % 10))
    }
}

/// The name of the file that keeps `key` during the build with this epoch.
pub open spec fn file_name(key: Seq<char>, epoch: nat) -> Seq<char> {
    "macro_state_"@ + key + seq!['_'] + decimal(epoch)
}

/// The location of the file that keeps `key` during the build with this
/// epoch, under the storage root `root`.
pub open spec fn location(root: Seq<char>, key: Seq<char>, epoch: nat) -> Seq<char> {
    root + seq!['/'] + file_name(key, epoch)
}

fn digit_char(d: u8) -> (c: char)
    requires
        d < 10,
    ensures
        c == digit(d as nat),
{
    if d == 0 {
        '0'
    } else if d == 1 {
        '1'
    } else if d == 2 {
        '2'
    } else if d == 3 {
        '3'
    } else if d == 4 {
        '4'
    } else if d == 5 {
        '5'
    } else if d == 6 {
        '6'
    } else if d == 7 {
        '7'
    } else if d == 8 {
        '8'
    } else {
        '9'
    }
}

fn push_decimal(out: &mut Vec<char>, n: u128)
    ensures
        final(out)@ == old(out)@ + decimal(n as nat),
    decreases n,
{
    if n >= 10 {
        push_decimal(out, n / 10);
    }
    let d: u8 = (n % 10) as u8;
    out.push(digit_char(d));
}

/// Returns the location of the file that keeps `key` during the build with
/// this epoch: `root`, a slash, and the file's name, which is made of
/// `macro_state_`, the key, an underscore and the epoch in base ten.
pub fn state_file_path(root: &str, key: &str, epoch: u128) -> (path: String)
    ensures
        path@ == location(root@, key@, epoch as nat),
{
    let mut digits: Vec<char> = Vec::new();
    push_decimal(&mut digits, epoch);
    let digits = string_of(&digits);
    let mut path = root.to_owned();
    path.push('/');
    path.append("macro_state_");
    path.append(key);
    path.push('_');
    path.append(digits.as_str());
    path
}

/// A number in base ten has at least one character, and each is a digit.
pub proof fn lemma_decimal_is_digits(n: nat)
    ensures
        decimal(n).len() >= 1,
        forall|i: int| 0 <= i < decimal(n).len() ==> is_digit(#[trigger] decimal(n)[i]),
    decreases n,
{
    if n >= 10 {
        lemma_decimal_is_digits(n / 10);
    }
}

/// Two digits that are written alike are the same digit.
pub proof fn lemma_digit_injective(a: nat, b: nat)
    requires
        a < 10,
        b < 10,
        digit(a) == digit(b),
    ensures
        a == b,
{
}

/// Two numbers that are written alike in base ten are the same number.
pub proof fn lemma_decimal_injective(a: nat, b: nat)
    requires
        decimal(a) == decimal(b),
    ensures
        a == b,
    decreases a,
{
    lemma_decimal_is_digits(a / 10);
    lemma_decimal_is_digits(b / 10);
    if a < 10 && b < 10 {
        assert(decimal(a)[0] == digit(a));
        assert(decimal(b)[0] == digit(b));
        lemma_digit_injective(a, b);
    } else if a >= 10 && b >= 10 {
        assert(decimal(a).drop_last() =~= decimal(a / 10));
        assert(decimal(b).drop_last() =~= decimal(b / 10));
        assert(decimal(a).last() == digit(a % 10));
        assert(decimal(b).last() == digit(b % 10));
        lemma_decimal_injective(a / 10, b / 10);
        lemma_digit_injective(a % 10, b % 10);
    }
}

/// Under one storage root, two keys or two epochs never share a location:
/// where the locations are the same, so are the keys and the epochs.
pub proof fn lemma_location_injective(
    root: Seq<char>,
    key1: Seq<char>,
    epoch1: nat,
    key2: Seq<char>,
    epoch2: nat,
)
    requires
        location(root, key1, epoch1) == location(root, key2, epoch2),
    ensures
        key1 == key2,
        epoch1 == epoch2,
{
    let prefix = root + seq!['/'] + "macro_state_"@;
    let d1 = decimal(epoch1);
    let d2 = decimal(epoch2);
    let s1 = key1 + seq!['_'] + d1;
    let s2 = key2 + seq!['_'] + d2;
    let whole = location(root, key1, epoch1);
    assert(s1 =~= whole.skip(prefix.len() as int));
    assert(s2 =~= whole.skip(prefix.len() as int));
    lemma_decimal_is_digits(epoch1);
    lemma_decimal_is_digits(epoch2);
    if d1.len() < d2.len() {
        let at = key1.len() as int;
        assert(s1[at] == '_');
        assert(s2[at] == d2[at - key2.len() - 1]);
    } else if d2.len() < d1.len() {
        let at = key2.len() as int;
        assert(s2[at] == '_');
        assert(s1[at] == d1[at - key1.len() - 1]);
    }
    assert(key1 =~= s1.take(key1.len() as int));
    assert(key2 =~= s2.take(key2.len() as int));
    assert(d1 =~= s1.skip(key1.len() as int + 1));
    assert(d2 =~= s2.skip(key2.len() as int + 1));
    lemma_decimal_injective(epoch1, epoch2);
}

/// Two builds with different epochs keep the same key at different
/// locations.
pub proof fn lemma_epochs_do_not_collide(root: Seq<char>, key: Seq<char>, epoch1: nat, epoch2: nat)
    requires
        epoch1 != epoch2,
    ensures
        location(root, key, epoch1) != location(root, key, epoch2),
{
    if location(root, key, epoch1) == location(root, key, epoch2) {
        lemma_location_injective(root, key, epoch1, key, epoch2);
    }
}

} // verus!
