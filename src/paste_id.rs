//! Paste identifiers: short strings over the 62 ASCII letters and digits.

use vstd::prelude::*;
use rand::Rng;

verus! {

/// The characters an identifier is made of, in the order that draws index.
pub const BASE62: &'static str = "0123456789ABCDEFGHIJKLMNOPQRSTUVWXYZabcdefghijklmnopqrstuvwxyz";

/// The number of characters in `BASE62`.
pub const BASE62_LEN: usize = 62;

/// The alphabet as a sequence of characters.
pub open spec fn alphabet() -> Seq<char> {
    BASE62@
}

/// Whether every character of `s` comes from the alphabet.
pub open spec fn is_id_text(s: Seq<char>) -> bool {
    forall|i: int| 0 <= i < s.len() ==> alphabet().contains(#[trigger] s[i])
}

/// The identifier text that a sequence of draws selects: draw `d` picks the
/// character at position `d % 62` of the alphabet.
pub open spec fn id_of_draws(draws: Seq<usize>) -> Seq<char> {
    Seq::new(draws.len(), |i: int| alphabet()[(draws[i] % 62) as int])
}

proof fn lemma_alphabet_len()
    ensures
        alphabet().len() == BASE62_LEN,
{
    reveal_strlit("0123456789ABCDEFGHIJKLMNOPQRSTUVWXYZabcdefghijklmnopqrstuvwxyz");
}

/// Whether `c` is one of the alphabet's characters.
pub fn is_alphabet_char(c: char) -> (r: bool)
    ensures
        r == alphabet().contains(c),
{
    proof {
        lemma_alphabet_len();
    }
    let mut k: usize = 0;
    while k < BASE62_LEN
        invariant
            0 <= k <= BASE62_LEN,
            alphabet().len() == BASE62_LEN,
            forall|j: int| 0 <= j < k ==> alphabet()[j] != c,
        decreases BASE62_LEN - k,
    {
        if BASE62.get_char(k) == c {
            return true;
        }
        k = k + 1;
    }
    false
}

/// Relies on rand's `thread_rng().gen_range(0..n)`: a value in `0..n`. It
/// panics on an empty range, hence `n > 0`.
#[verifier::external_body]
fn random_below(n: usize) -> (r: usize)
    requires
        n > 0,
    ensures
        r < n,
{
    rand::thread_rng().gen_range(0..n)
}

/// An identifier under which a paste is stored. Its text never changes once made.
pub struct PasteId {
    id: String,
}

impl View for PasteId {
    type V = Seq<char>;

    closed spec fn view(&self) -> Seq<char> {
        self.id@
    }
}

impl PasteId {
    #[verifier::type_invariant]
    closed spec fn inv(self) -> bool {
        is_id_text(self.id@)
    }

    /// Builds the identifier that `draws` selects, one character per draw.
    pub fn from_draws(draws: &Vec<usize>) -> (r: PasteId)
        ensures
            r@ == id_of_draws(draws@),
            is_id_text(r@),
    {
        proof {
            lemma_alphabet_len();
        }
        let mut id = String::new();
        let mut i: usize = 0;
        while i < draws.len()
            invariant
                0 <= i <= draws@.len(),
                alphabet().len() == BASE62_LEN,
                id@ == id_of_draws(draws@.subrange(0, i as int)),
            decreases draws@.len() - i,
        {
            let k: usize = draws[i] % BASE62_LEN;
            let c = BASE62.substring_char(k, k + 1);
            id.append(c);
            i = i + 1;
            assert(id@ =~= id_of_draws(draws@.subrange(0, i as int)));
        }
        assert(draws@.subrange(0, draws@.len() as int) =~= draws@);
        assert(is_id_text(id@)) by {
            assert forall|j: int| 0 <= j < id@.len() implies alphabet().contains(#[trigger] id@[j]) by {
                assert(alphabet()[(draws@[j] % 62) as int] == id@[j]);
            }
        }
        PasteId { id }
    }

    /// A fresh random identifier of `size` characters.
    pub fn new(size: usize) -> (r: PasteId)
        ensures
            r@.len() == size,
            is_id_text(r@),
    {
        let mut draws: Vec<usize> = Vec::new();
        let mut i: usize = 0;
        while i < size
            invariant
                0 <= i <= size,
                draws@.len() == i,
            decreases size - i,
        {
            draws.push(random_below(BASE62_LEN));
            i = i + 1;
        }
        PasteId::from_draws(&draws)
    }

    /// Accepts `text` as an identifier when every character of it comes from
    /// the alphabet.
    pub fn parse(text: &str) -> (r: Option<PasteId>)
        ensures
            r is Some <==> is_id_text(text@),
            r matches Some(id) ==> id@ == text@,
    {
        let n = text.unicode_len();
        let mut i: usize = 0;
        while i < n
            invariant
                0 <= i <= n,
                n == text@.len(),
                forall|j: int| 0 <= j < i ==> alphabet().contains(#[trigger] text@[j]),
            decreases n - i,
        {
            let c = text.get_char(i);
            if !is_alphabet_char(c) {
                return None;
            }
            i = i + 1;
        }
        Some(PasteId { id: String::from_str(text) })
    }

    /// The identifier's text.
    pub fn as_string(&self) -> (r: &String)
        ensures
            r@ == self@,
    {
        &self.id
    }

    /// The number of characters in the identifier.
    pub fn len(&self) -> (r: usize)
        ensures
            r == self@.len(),
    {
        self.id.as_str().unicode_len()
    }
}

} // verus!
