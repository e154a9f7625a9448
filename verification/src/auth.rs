//! Authorization of private, presence and encrypted subscriptions: the
//! HMAC-SHA256 signature each auth token must carry, its hex rendering, and
//! the token check.

use vstd::prelude::*;

verus! {

/// What HMAC-SHA256 returns over a UTF-8 key and message: a function of the
/// two texts alone.
pub uninterp spec fn hmac_sha256_of(key: Seq<char>, msg: Seq<char>) -> Seq<u8>;

/// Relies on `hmac::Hmac<sha2::Sha256>`: the 32-byte authentication code is
/// a function of the (UTF-8 encoded) key and message texts alone, and a key
/// of any length is accepted (long keys are hashed first).
#[verifier::external_body]
fn hmac_sha256(key: &str, msg: &str) -> (r: Vec<u8>)
    ensures
        r@ == hmac_sha256_of(key@, msg@),
        r@.len() == 32,
{
    let mut mac = <hmac::Hmac<sha2::Sha256> as hmac::Mac>::new_from_slice(key.as_bytes()).unwrap();
    hmac::Mac::update(&mut mac, msg.as_bytes());
    hmac::Mac::finalize(mac).into_bytes().to_vec()
}

/// The lower-case hex digit for a nibble.
pub open spec fn hex_digit(n: u8) -> char {
    if n == 0 {
        '0'
    } else if n == 1 {
        '1'
    } else if n == 2 {
        '2'
    } else if n == 3 {
        '3'
    } else if n == 4 {
        '4'
    } else if n == 5 {
        '5'
    } else if n == 6 {
        '6'
    } else if n == 7 {
        '7'
    } else if n == 8 {
        '8'
    } else if n == 9 {
        '9'
    } else if n == 10 {
        'a'
    } else if n == 11 {
        'b'
    } else if n == 12 {
        'c'
    } else if n == 13 {
        'd'
    } else if n == 14 {
        'e'
    } else {
        'f'
    }
}

/// The lower-case hex rendering of a byte string: two digits per byte, high
/// nibble first.
pub open spec fn hex_of(bytes: Seq<u8>) -> Seq<char> {
    Seq::new(
        bytes.len() * 2,
        |i: int|
            if i % 2 == 0 {
                hex_digit((bytes[i / 2] / 16) as u8)
            } else {
                hex_digit((bytes[i / 2] % 16) as u8)
            },
    )
}

fn hex_digit_str(n: u8) -> (r: &'static str)
    requires
        n < 16,
    ensures
        r@.len() == 1,
        r@[0] == hex_digit(n),
{
    proof {
        reveal_strlit("0");
        reveal_strlit("1");
        reveal_strlit("2");
        reveal_strlit("3");
        reveal_strlit("4");
        reveal_strlit("5");
        reveal_strlit("6");
        reveal_strlit("7");
        reveal_strlit("8");
        reveal_strlit("9");
        reveal_strlit("a");
        reveal_strlit("b");
        reveal_strlit("c");
        reveal_strlit("d");
        reveal_strlit("e");
        reveal_strlit("f");
    }
    match n {
        0 => "0",
        1 => "1",
        2 => "2",
        3 => "3",
        4 => "4",
        5 => "5",
        6 => "6",
        7 => "7",
        8 => "8",
        9 => "9",
        10 => "a",
        11 => "b",
        12 => "c",
        13 => "d",
        14 => "e",
        _ => "f",
    }
}

/// Render bytes as lower-case hex.
pub fn to_hex(bytes: &Vec<u8>) -> (r: String)
    ensures
        r@ == hex_of(bytes@),
{
    let n = bytes.len();
    let mut s = String::new();
    let mut i: usize = 0;
    while i < n
        invariant
            i <= n,
            n == bytes@.len(),
            s@.len() == 2 * i,
            forall|j: int| 0 <= j < 2 * i ==> s@[j] == hex_of(bytes@)[j],
        decreases n - i,
    {
        let b = bytes[i];
        let hi = b / 16;
        let lo = b % 16;
        s.append(hex_digit_str(hi));
        s.append(hex_digit_str(lo));
        proof {
            assert(hex_of(bytes@)[2 * i as int] == hex_digit(hi));
            assert(hex_of(bytes@)[2 * i as int + 1] == hex_digit(lo));
        }
        i = i + 1;
    }
    proof {
        assert(s@ =~= hex_of(bytes@));
    }
    s
}

/// Equality of two strings, examining every character of both (no early
/// exit on a mismatch, so unequal tokens of one length take one time).
pub fn ct_str_eq(a: &str, b: &str) -> (r: bool)
    ensures
        r == (a@ == b@),
{
    let al = a.unicode_len();
    let bl = b.unicode_len();
    if al != bl {
        return false;
    }
    let mut diff = false;
    let mut i: usize = 0;
    while i < al
        invariant
            i <= al,
            al == a@.len(),
            al == b@.len(),
            diff == !(forall|j: int| 0 <= j < i ==> a@[j] == b@[j]),
        decreases al - i,
    {
        if a.get_char(i) != b.get_char(i) {
            diff = true;
        }
        i = i + 1;
    }
    if diff {
        false
    } else {
        proof {
            assert(a@ =~= b@);
        }
        true
    }
}

/// The hex signature the broker expects over `message`, keyed by the app
/// secret.
pub open spec fn spec_signature(secret: Seq<char>, message: Seq<char>) -> Seq<char> {
    hex_of(hmac_sha256_of(secret, message))
}

/// Compute the expected hex signature of `message` under `secret`.
pub fn sign(secret: &str, message: &str) -> (r: String)
    ensures
        r@ == spec_signature(secret@, message@),
{
    let code = hmac_sha256(secret, message);
    to_hex(&code)
}

/// The auth token a client must present: `<app_key>:<hex signature>`.
pub open spec fn spec_auth_token(
    app_key: Seq<char>,
    secret: Seq<char>,
    message: Seq<char>,
) -> Seq<char> {
    app_key + ":"@ + spec_signature(secret, message)
}

/// The text an HTTP API request signs: the method, the path and the sorted
/// query string, newline-separated.
pub open spec fn spec_api_message(
    method: Seq<char>,
    path: Seq<char>,
    sorted_query: Seq<char>,
) -> Seq<char> {
    method + "\n"@ + path + "\n"@ + sorted_query
}

/// Whether an HTTP API caller's `auth_signature` is exactly the HMAC the
/// broker expects over the request's method, path and sorted query string.
pub fn valid_api_signature(
    signature: &str,
    secret: &str,
    method: &str,
    path: &str,
    sorted_query: &str,
) -> (r: bool)
    ensures
        r == (signature@ == spec_signature(
            secret@,
            spec_api_message(method@, path@, sorted_query@),
        )),
{
    proof {
        reveal_strlit("\n");
    }
    let message = method.to_owned().concat("\n").concat(path).concat("\n").concat(sorted_query);
    let expected = sign(secret, message.as_str());
    ct_str_eq(signature, expected.as_str())
}

/// Whether a presented auth token is exactly the one the broker expects for
/// `message` under this app's key and secret.
pub fn valid_auth_token(provided: &str, app_key: &str, secret: &str, message: &str) -> (r: bool)
    ensures
        r == (provided@ == spec_auth_token(app_key@, secret@, message@)),
{
    let sig = sign(secret, message);
    let expected = app_key.to_owned().concat(":").concat(sig.as_str());
    proof {
        reveal_strlit(":");
    }
    ct_str_eq(provided, expected.as_str())
}

} // verus!
