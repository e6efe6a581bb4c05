use vstd::prelude::*;
use vstd::string::StrSliceExecFns;
use vstd::string::StringSliceAdditionalSpecFns;

verus! {

/// Two strings are equal exactly when their UTF-8 encodings are equal:
/// encoding followed by decoding gives the characters back.
proof fn lemma_encode_utf8_injective(a: Seq<char>, b: Seq<char>)
    requires
        vstd::utf8::encode_utf8(a) == vstd::utf8::encode_utf8(b),
    ensures
        a == b,
{
    vstd::utf8::encode_utf8_decode_utf8(a);
    vstd::utf8::encode_utf8_decode_utf8(b);
}

/// Character-for-character equality of two string slices, decided by
/// comparing their UTF-8 bytes.
pub fn str_eq(a: &str, b: &str) -> (r: bool)
    ensures
        r == (a@ == b@),
{
    let av = a.as_bytes_vec();
    let bv = b.as_bytes_vec();
    if av.len() != bv.len() {
        proof {
            if a@ == b@ {
                assert(av@ == bv@);
            }
        }
        return false;
    }
    let n = av.len();
    let mut i: usize = 0;
    while i < n
        invariant
            n == av.len(),
            n == bv.len(),
            i <= n,
            av@ == a.spec_bytes(),
            bv@ == b.spec_bytes(),
            forall|j: int| 0 <= j < i ==> av@[j] == bv@[j],
        decreases n - i,
    {
        if av[i] != bv[i] {
            proof {
                if a@ == b@ {
                    assert(av@ == bv@);
                }
            }
            return false;
        }
        i += 1;
    }
    proof {
        assert(av@ =~= bv@);
        lemma_encode_utf8_injective(a@, b@);
    }
    true
}

} // verus!
