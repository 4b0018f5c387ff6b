use vstd::prelude::*;
use vstd::std_specs::cmp::PartialEqSpecImpl;

verus! {

/// Identifier of a commit: a fixed-size token, compared by value.
#[derive(Clone, Copy, Debug, Eq, Hash)]
pub struct CommitId {
    bytes: [u8; 20],
}

impl View for CommitId {
    type V = Seq<u8>;

    closed spec fn view(&self) -> Seq<u8> {
        self.bytes@
    }
}

impl CommitId {
    /// The identifier made of the given hash bytes.
    pub fn from_bytes(bytes: [u8; 20]) -> (id: CommitId)
        ensures
            id@ == bytes@,
    {
        CommitId { bytes }
    }

    /// The hash bytes of this identifier.
    pub fn as_bytes(&self) -> (bytes: [u8; 20])
        ensures
            bytes@ == self@,
    {
        self.bytes
    }

    /// The first `len` digits of the identifier in lower-case hexadecimal:
    /// all forty of them when `len` is forty or more.
    pub fn hex(&self, len: usize) -> (text: String)
        ensures
            text@ == hex_of(self@).take(
                if len < 40 {
                    len as int
                } else {
                    40
                },
            ),
    {
        let end: usize = if len < 40 {
            len
        } else {
            40
        };
        let mut text = String::new();
        let mut i: usize = 0;
        assert(text@ =~= hex_of(self@).take(0));
        while i < end
            invariant
                i <= end <= 40,
                text@ == hex_of(self@).take(i as int),
            decreases end - i,
        {
            let byte = self.bytes[i / 2];
            let c = if i % 2 == 0 {
                hex_char(byte / 16)
            } else {
                hex_char(byte % 16)
            };
            text.push(c);
            assert(text@ =~= hex_of(self@).take(i + 1));
            i += 1;
        }
        text
    }

    /// An identifier is determined by its bytes.
    pub proof fn lemma_view_injective(a: CommitId, b: CommitId)
        ensures
            a@.len() == 20,
            (a@ == b@) <==> (a == b),
    {
        if a@ == b@ {
            assert(a.bytes@ =~= b.bytes@);
            assert(a.bytes == b.bytes);
        }
    }
}

/// The lower-case hexadecimal digit of a value below sixteen.
pub open spec fn hex_digit(n: int) -> char {
    seq!['0', '1', '2', '3', '4', '5', '6', '7', '8', '9', 'a', 'b', 'c', 'd', 'e', 'f'][n]
}

/// The hexadecimal digit at place `i` of the bytes written out in hexadecimal,
/// two digits to the byte, the high half first.
pub open spec fn hex_at(bytes: Seq<u8>, i: int) -> char {
    if i % 2 == 0 {
        hex_digit(bytes[i / 2] as int / 16)
    } else {
        hex_digit(bytes[i / 2] as int % 16)
    }
}

/// The bytes written out in lower-case hexadecimal.
pub open spec fn hex_of(bytes: Seq<u8>) -> Seq<char> {
    Seq::new(2 * bytes.len(), |i: int| hex_at(bytes, i))
}

/// The hexadecimal digit of a value below sixteen.
fn hex_char(n: u8) -> (c: char)
    requires
        n < 16,
    ensures
        c == hex_digit(n as int),
{
    match n {
        0 => '0',
        1 => '1',
        2 => '2',
        3 => '3',
        4 => '4',
        5 => '5',
        6 => '6',
        7 => '7',
        8 => '8',
        9 => '9',
        10 => 'a',
        11 => 'b',
        12 => 'c',
        13 => 'd',
        14 => 'e',
        _ => 'f',
    }
}

impl PartialEq for CommitId {
    fn eq(&self, other: &CommitId) -> (r: bool) {
        let mut i: usize = 0;
        while i < 20
            invariant
                i <= 20,
                forall|k: int| 0 <= k < i ==> self.bytes[k] == other.bytes[k],
            decreases 20 - i,
        {
            if self.bytes[i] != other.bytes[i] {
                return false;
            }
            i += 1;
        }
        assert(self.bytes =~= other.bytes);
        true
    }
}

impl PartialEqSpecImpl for CommitId {
    open spec fn obeys_eq_spec() -> bool {
        true
    }

    open spec fn eq_spec(&self, other: &CommitId) -> bool {
        *self == *other
    }
}

} // verus!
