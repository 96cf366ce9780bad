//! Task identifiers: eight characters drawn from a 32-symbol alphabet
//! (digits and lowercase letters except i, l, o and u), carrying 40 bits of
//! randomness. Comparison and prefix matching are ASCII-case-insensitive.
use crate::chars::lower_char;
use crate::chars::push_char;
use crate::chars::spec_lower_char;
use vstd::prelude::*;
use vstd::string::StrSliceExecFns;
use vstd::string::StringExecFns;

verus! {

/// The identifier alphabet, by symbol index.
pub open spec fn spec_alphabet_char(d: int) -> char {
    if d == 0 {
        '0'
    } else if d == 1 {
        '1'
    } else if d == 2 {
        '2'
    } else if d == 3 {
        '3'
    } else if d == 4 {
        '4'
    } else if d == 5 {
        '5'
    } else if d == 6 {
        '6'
    } else if d == 7 {
        '7'
    } else if d == 8 {
        '8'
    } else if d == 9 {
        '9'
    } else if d == 10 {
        'a'
    } else if d == 11 {
        'b'
    } else if d == 12 {
        'c'
    } else if d == 13 {
        'd'
    } else if d == 14 {
        'e'
    } else if d == 15 {
        'f'
    } else if d == 16 {
        'g'
    } else if d == 17 {
        'h'
    } else if d == 18 {
        'j'
    } else if d == 19 {
        'k'
    } else if d == 20 {
        'm'
    } else if d == 21 {
        'n'
    } else if d == 22 {
        'p'
    } else if d == 23 {
        'q'
    } else if d == 24 {
        'r'
    } else if d == 25 {
        's'
    } else if d == 26 {
        't'
    } else if d == 27 {
        'v'
    } else if d == 28 {
        'w'
    } else if d == 29 {
        'x'
    } else if d == 30 {
        'y'
    } else {
        'z'
    }
}

/// True of the characters that the identifier alphabet contains.
pub open spec fn is_alphabet_char(c: char) -> bool {
    exists|d: int| 0 <= d < 32 && spec_alphabet_char(d) == c
}

fn alphabet_char(d: u8) -> (r: char)
    requires
        d < 32,
    ensures
        r == spec_alphabet_char(d as int),
        is_alphabet_char(r),
{
    let r = match d {
        0 => '0',
        1 => '1',
        2 => '2',
        3 => '3',
        4 => '4',
        5 => '5',
        6 => '6',
        7 => '7',
        8 => '8',
        9 => '9',
        10 => 'a',
        11 => 'b',
        12 => 'c',
        13 => 'd',
        14 => 'e',
        15 => 'f',
        16 => 'g',
        17 => 'h',
        18 => 'j',
        19 => 'k',
        20 => 'm',
        21 => 'n',
        22 => 'p',
        23 => 'q',
        24 => 'r',
        25 => 's',
        26 => 't',
        27 => 'v',
        28 => 'w',
        29 => 'x',
        30 => 'y',
        _ => 'z',
    };
    proof {
        assert(0 <= d < 32 && spec_alphabet_char(d as int) == r);
    }
    r
}

/// Relies on rand::random for five uniformly random bytes; nothing is assumed
/// of their values.
#[verifier::external_body]
fn random_bytes() -> (r: [u8; 5]) {
    rand::random()
}

fn low5(x: u64) -> (r: u8)
    ensures
        r < 32,
{
    let v = (x & 0x1f) as u8;
    proof {
        assert(x & 0x1f < 32) by (bit_vector);
    }
    v
}

/// A task identifier.
#[derive(Debug, PartialEq, Eq, Hash)]
pub struct TaskId {
    text: String,
}

impl View for TaskId {
    type V = Seq<char>;

    closed spec fn view(&self) -> Seq<char> {
        self.text@
    }
}

impl DeepView for TaskId {
    type V = Seq<char>;

    open spec fn deep_view(&self) -> Seq<char> {
        self.view()
    }
}

impl Clone for TaskId {
    fn clone(&self) -> (r: Self)
        ensures
            r@ == self@,
    {
        TaskId { text: self.text.clone() }
    }
}

/// Case-insensitive prefix test: every character of `p` matches the
/// corresponding character of `id` up to ASCII case.
pub open spec fn spec_matches_prefix(id: Seq<char>, p: Seq<char>) -> bool {
    p.len() <= id.len() && forall|k: int|
        0 <= k < p.len() ==> spec_lower_char(id[k]) == spec_lower_char(p[k])
}

/// True when the first `l` characters of `id` tell it apart from every other
/// identifier in `others`, identifiers equal to `id` excepted.
pub open spec fn is_distinguishing(id: Seq<char>, others: Seq<Seq<char>>, l: int) -> bool {
    forall|j: int|
        0 <= j < others.len() ==> (#[trigger] others[j]) == id || !spec_matches_prefix(
            others[j],
            id.subrange(0, l),
        )
}

impl TaskId {
    /// Generate a fresh identifier: 40 random bits encoded as eight
    /// alphabet characters of five bits each.
    pub fn new() -> (r: TaskId)
        ensures
            r@.len() == 8,
            forall|i: int| 0 <= i < 8 ==> is_alphabet_char(#[trigger] r@[i]),
    {
        let bytes = random_bytes();
        let bits: u64 = ((bytes[0] as u64) << 32) | ((bytes[1] as u64) << 24) | ((bytes[2]
            as u64) << 16) | ((bytes[3] as u64) << 8) | (bytes[4] as u64);
        let mut text = String::new();
        let mut k: usize = 0;
        while k < 8
            invariant
                k <= 8,
                text@.len() == k,
                forall|i: int| 0 <= i < k ==> is_alphabet_char(#[trigger] text@[i]),
            decreases 8 - k,
        {
            let shift: u64 = ((7 - k) as u64) * 5;
            let idx = low5(bits >> shift);
            let c = alphabet_char(idx);
            push_char(&mut text, c);
            k = k + 1;
        }
        TaskId { text }
    }

    /// Wrap an existing string as an identifier, as when reading a filename.
    pub fn from_string(s: &str) -> (r: TaskId)
        ensures
            r@ == s@,
    {
        TaskId { text: String::from_str(s) }
    }

    /// The full identifier string.
    pub fn full(&self) -> (r: &str)
        ensures
            r@ == self@,
    {
        self.text.as_str()
    }

    /// Case-sensitive equality of two identifiers.
    pub fn same(&self, other: &TaskId) -> (r: bool)
        ensures
            r == (self@ == other@),
    {
        crate::chars::str_eq(self.text.as_str(), other.text.as_str())
    }

    /// Case-insensitive prefix test.
    pub fn matches_prefix(&self, prefix: &str) -> (r: bool)
        ensures
            r == spec_matches_prefix(self@, prefix@),
    {
        let np = prefix.unicode_len();
        let n = self.text.as_str().unicode_len();
        if np > n {
            return false;
        }
        let mut k: usize = 0;
        while k < np
            invariant
                np == prefix@.len(),
                n == self@.len(),
                np <= n,
                k <= np,
                forall|j: int| 0 <= j < k ==> spec_lower_char(self@[j]) == spec_lower_char(
                    prefix@[j],
                ),
            decreases np - k,
        {
            if lower_char(self.text.as_str().get_char(k)) != lower_char(prefix.get_char(k)) {
                return false;
            }
            k = k + 1;
        }
        true
    }

    /// The shortest leading substring of this identifier, of length at least
    /// one, that no other identifier in `others` matches case-insensitively,
    /// identifiers equal to this one excepted; the whole identifier when no
    /// length tells it apart.
    pub fn shortest_unique_prefix<'a>(&'a self, others: &[&TaskId]) -> (r: &'a str)
        ensures
            r@.len() <= self@.len(),
            r@ == self@.subrange(0, r@.len() as int),
            self@.len() == 0 ==> r@.len() == 0,
            self@.len() > 0 ==> 1 <= r@.len(),
            is_distinguishing(self@, others.deep_view(), r@.len() as int) || r@.len()
                == self@.len(),
            forall|m: int|
                1 <= m < r@.len() ==> !is_distinguishing(self@, others.deep_view(), m),
    {
        let n = self.text.as_str().unicode_len();
        let mut l: usize = 1;
        while l < n
            invariant
                n == self@.len(),
                1 <= l,
                forall|m: int| 1 <= m < l ==> !is_distinguishing(self@, others.deep_view(), m),
            decreases n - l,
        {
            if self.distinguishes(others, l) {
                proof {
                    assert(self@.subrange(0, l as int).len() == l as int);
                }
                return self.text.as_str().substring_char(0, l);
            }
            l = l + 1;
        }
        proof {
            assert(self@.subrange(0, n as int) =~= self@);
        }
        self.text.as_str().substring_char(0, n)
    }

    fn distinguishes(&self, others: &[&TaskId], l: usize) -> (r: bool)
        requires
            l <= self@.len(),
        ensures
            r == is_distinguishing(self@, others.deep_view(), l as int),
    {
        let prefix = self.text.as_str().substring_char(0, l);
        let mut j: usize = 0;
        let no = others.len();
        while j < no
            invariant
                no == others@.len(),
                j <= no,
                prefix@ == self@.subrange(0, l as int),
                forall|i: int|
                    0 <= i < j ==> (#[trigger] others.deep_view()[i]) == self@
                        || !spec_matches_prefix(others.deep_view()[i], self@.subrange(0, l as int)),
            decreases no - j,
        {
            let o: &TaskId = others[j];
            proof {
                assert(others.deep_view()[j as int] == others@[j as int]@);
            }
            if !crate::chars::str_eq(o.full(), self.text.as_str()) && o.matches_prefix(prefix) {
                return false;
            }
            j = j + 1;
        }
        true
    }
}

} // verus!
