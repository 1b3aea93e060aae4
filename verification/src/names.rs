//! Group names as byte strings: equality, ASCII case folding, and the
//! reserved name of the built-in "default" group.

use vstd::prelude::*;

verus! {

/// The name of the built-in group every controller always carries: the bytes
/// of "default".
pub open spec fn spec_default_name() -> Seq<u8> {
    seq![100u8, 101u8, 102u8, 97u8, 117u8, 108u8, 116u8]
}

/// The name of the built-in default group, as a byte string.
pub fn default_group_name() -> (v: Vec<u8>)
    ensures
        v@ == spec_default_name(),
{
    let mut v: Vec<u8> = Vec::new();
    v.push(100);  // d
    v.push(101);  // e
    v.push(102);  // f
    v.push(97);  // a
    v.push(117);  // u
    v.push(108);  // l
    v.push(116);  // t
    assert(v@ =~= spec_default_name());
    v
}

/// Whether `name` is the reserved name of the built-in default group.
pub fn is_default_name(name: &[u8]) -> (r: bool)
    ensures
        r == (name@ == spec_default_name()),
{
    let r = name.len() == 7 && name[0] == 100 && name[1]
        == 101 && name[2] == 102 && name[3] == 97
        && name[4] == 117 && name[5] == 108
        && name[6] == 116;
    proof {
        if r {
            assert(name@ =~= spec_default_name());
        } else {
            if name@ == spec_default_name() {
                assert(name@.len() == 7);
            }
        }
    }
    r
}

/// The default group's name is already lower case: folding it is the
/// identity.
pub proof fn lemma_default_name_lowercase()
    ensures
        spec_to_lowercase(spec_default_name()) == spec_default_name(),
{
    assert(spec_to_lowercase(spec_default_name()) =~= spec_default_name());
}

/// Whether two byte strings hold the same bytes.
pub fn bytes_eq(a: &[u8], b: &[u8]) -> (r: bool)
    ensures
        r == (a@ == b@),
{
    if a.len() != b.len() {
        proof {
            if a@ == b@ {
                assert(a@.len() == b@.len());
            }
        }
        return false;
    }
    let n = a.len();
    let mut i: usize = 0;
    while i < n
        invariant
            n == a@.len() == b@.len(),
            i <= n,
            forall|j: int| 0 <= j < i ==> a@[j] == b@[j],
        decreases n - i,
    {
        if a[i] != b[i] {
            proof {
                if a@ == b@ {
                    assert(a@[i as int] == b@[i as int]);
                }
            }
            return false;
        }
        i = i + 1;
    }
    proof {
        assert(a@ =~= b@);
    }
    true
}

/// `b` folded to ASCII lower case: an upper-case ASCII letter has 32 added,
/// every other byte is kept.
pub open spec fn spec_lower_byte(b: u8) -> u8 {
    if 65 <= b <= 90 {
        (b + 32) as u8
    } else {
        b
    }
}

/// `s` folded to ASCII lower case, byte for byte.
pub open spec fn spec_to_lowercase(s: Seq<u8>) -> Seq<u8> {
    s.map_values(|b: u8| spec_lower_byte(b))
}

/// Fold a name to ASCII lower case, so that group names are case-insensitive.
pub fn to_ascii_lowercase_bytes(name: &[u8]) -> (v: Vec<u8>)
    ensures
        v@ == spec_to_lowercase(name@),
{
    let n = name.len();
    let mut v: Vec<u8> = Vec::new();
    let mut i: usize = 0;
    while i < n
        invariant
            n == name@.len(),
            i <= n,
            v@.len() == i,
            forall|j: int| 0 <= j < i ==> v@[j] == spec_lower_byte(name@[j]),
        decreases n - i,
    {
        let b = name[i];
        // an ASCII letter in A..=Z
        if 65 <= b && b <= 90 {
            v.push(b + 32);
        } else {
            v.push(b);
        }
        i = i + 1;
    }
    proof {
        assert(v@ =~= spec_to_lowercase(name@));
    }
    v
}

} // verus!
