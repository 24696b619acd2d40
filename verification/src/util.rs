use vstd::prelude::*;

verus! {

/// Number of characters in a nonce.
pub const NONCE_LEN: usize = 30;

/// `b` is an ASCII letter or digit: `a-z`, `A-Z` or `0-9`.
pub open spec fn is_alphanumeric_byte(b: u8) -> bool {
    (0x61 <= b <= 0x7a) || (0x41 <= b <= 0x5a) || (0x30 <= b <= 0x39)
}

/// `c` is an ASCII letter or digit.
pub open spec fn is_alphanumeric_char(c: char) -> bool {
    ('a' <= c <= 'z') || ('A' <= c <= 'Z') || ('0' <= c <= '9')
}

/// A nonce: exactly thirty ASCII letters and digits.
pub open spec fn is_nonce(s: Seq<char>) -> bool {
    &&& s.len() == NONCE_LEN
    &&& forall|i: int| 0 <= i < s.len() ==> is_alphanumeric_char(#[trigger] s[i])
}

/// A nonce, to stand where a request needs none.
pub open spec fn some_nonce() -> Seq<char> {
    Seq::new(NONCE_LEN as nat, |i: int| 'a')
}

/// `some_nonce` is a nonce.
pub proof fn lemma_some_nonce()
    ensures
        is_nonce(some_nonce()),
{
}

/// Draws one byte from `rand`'s `Alphanumeric` distribution with the thread-local
/// generator (`rand::rng().sample(Alphanumeric)`). The crate documents and
/// implements it as an ASCII letter or digit; which one comes out is chance.
#[verifier::external_body]
fn random_alphanumeric() -> (b: u8)
    ensures
        is_alphanumeric_byte(b),
{
    rand::Rng::sample(&mut rand::rng(), rand::distr::Alphanumeric)
}

/// Appends the ASCII byte `b` as a character (`String::push` of `char::from(b)`).
#[verifier::external_body]
fn push_ascii(s: &mut String, b: u8)
    requires
        b < 128,
    ensures
        final(s)@ == old(s)@.push(b as char),
{
    s.push(char::from(b))
}

/// The text whose characters are the ASCII bytes `bytes`, in order.
pub open spec fn ascii_text(bytes: Seq<u8>) -> Seq<char> {
    Seq::new(bytes.len(), |i: int| bytes[i] as char)
}

/// The nonce made of the drawn ASCII bytes `bytes`, each as the character it
/// codes, in order.
pub fn nonce_from_bytes(bytes: &Vec<u8>) -> (nonce: String)
    requires
        forall|i: int| 0 <= i < bytes@.len() ==> (#[trigger] bytes@[i]) < 128,
    ensures
        nonce@ == ascii_text(bytes@),
        bytes@.len() == NONCE_LEN && (forall|i: int| 0 <= i < bytes@.len() ==> is_alphanumeric_byte(#[trigger] bytes@[i]))
            ==> is_nonce(nonce@),
{
    let mut nonce = String::new();
    let mut i: usize = 0;
    while i < bytes.len()
        invariant
            i <= bytes@.len(),
            forall|j: int| 0 <= j < bytes@.len() ==> (#[trigger] bytes@[j]) < 128,
            nonce@ =~= ascii_text(bytes@.take(i as int)),
        decreases bytes@.len() - i,
    {
        push_ascii(&mut nonce, bytes[i]);
        i += 1;
    }
    proof {
        assert(bytes@.take(bytes@.len() as int) =~= bytes@);
        if bytes@.len() == NONCE_LEN && (forall|i: int| 0 <= i < bytes@.len() ==> is_alphanumeric_byte(#[trigger] bytes@[i])) {
            assert forall|i: int| 0 <= i < nonce@.len() implies is_alphanumeric_char(#[trigger] nonce@[i]) by {
                let b = bytes@[i];
                assert(is_alphanumeric_byte(b));
                assert(nonce@[i] == b as char);
            }
        }
    }
    nonce
}

/// Generates a random nonce of thirty ASCII letters and digits: thirty bytes
/// drawn one after the other, made into a nonce by `nonce_from_bytes`.
pub fn generate_nonce() -> (nonce: String)
    ensures
        is_nonce(nonce@),
{
    let mut bytes: Vec<u8> = Vec::new();
    while bytes.len() < NONCE_LEN
        invariant
            bytes@.len() <= NONCE_LEN,
            forall|j: int| 0 <= j < bytes@.len() ==> is_alphanumeric_byte(#[trigger] bytes@[j]),
        decreases NONCE_LEN - bytes@.len(),
    {
        bytes.push(random_alphanumeric());
    }
    nonce_from_bytes(&bytes)
}

} // verus!
