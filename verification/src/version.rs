//! Comparison of dotted version strings, as used by the update check.

use crate::text::{
    find_byte, find_first, parse_u32_bytes, parse_u32_spec, str_bytes, subvec,
};
use vstd::prelude::*;
use vstd::string::StringSliceAdditionalSpecFns;

verus! {

/// A newer release, as reported by the update check.
#[derive(Debug, Clone)]
pub struct UpdateInfo {
    pub latest_version: String,
    pub download_url: String,
}

/// The numbers of a dotted version string, in order; unreadable pieces are
/// skipped.
pub open spec fn spec_version_nums(s: Seq<u8>) -> Seq<u32>
    decreases s.len(),
{
    match find_first(s, 46) {
        Option::None => match parse_u32_spec(s) {
            Option::Some(v) => seq![v],
            Option::None => Seq::empty(),
        },
        Option::Some(i) => if 0 <= i < s.len() {
            let tail = spec_version_nums(s.skip(i + 1));
            match parse_u32_spec(s.take(i)) {
                Option::Some(v) => seq![v] + tail,
                Option::None => tail,
            }
        } else {
            Seq::empty()
        },
    }
}

/// Lexicographic order on number sequences: element by element, a strict
/// prefix ordering below any extension.
pub open spec fn lex_less(a: Seq<u32>, b: Seq<u32>) -> bool
    decreases a.len(),
{
    if b.len() == 0 {
        false
    } else if a.len() == 0 {
        true
    } else if a[0] < b[0] {
        true
    } else if a[0] > b[0] {
        false
    } else {
        lex_less(a.drop_first(), b.drop_first())
    }
}

/// Read the dot-separated numbers of a version string, skipping unreadable
/// pieces.
pub fn version_nums(s: &str) -> (r: Vec<u32>)
    ensures
        r@ == spec_version_nums(s.spec_bytes()),
{
    let bytes = str_bytes(s);
    let mut rest = subvec(&bytes, 0, bytes.len());
    proof {
        assert(rest@ =~= bytes@);
    }
    let mut r: Vec<u32> = Vec::new();
    loop
        invariant
            spec_version_nums(s.spec_bytes()) =~= r@ + spec_version_nums(rest@),
        decreases rest@.len(),
    {
        let ghost old_r = r@;
        let ghost old_rest = rest@;
        match find_byte(&rest, 46) {
            Some(i) => {
                proof {
                    crate::text::lemma_find_first_props(old_rest, 46);
                }
                let piece = subvec(&rest, 0, i);
                proof {
                    assert(piece@ =~= old_rest.take(i as int));
                }
                match parse_u32_bytes(&piece) {
                    Some(v) => {
                        r.push(v);
                    },
                    None => {},
                }
                let rlen = rest.len();
                let next = subvec(&rest, i + 1, rlen);
                proof {
                    assert(next@ =~= old_rest.skip(i as int + 1));
                    assert(r@ + spec_version_nums(next@) =~= old_r + spec_version_nums(
                        old_rest,
                    ));
                }
                rest = next;
            },
            None => {
                match parse_u32_bytes(&rest) {
                    Some(v) => {
                        r.push(v);
                    },
                    None => {},
                }
                proof {
                    assert(r@ =~= old_r + spec_version_nums(old_rest));
                }
                return r;
            },
        }
    }
}

/// Whether `latest` denotes a strictly newer version than `current`:
/// the dot-separated numbers of `current` are lexicographically below those
/// of `latest` (a strict prefix counts as older).
pub fn version_newer(latest: &str, current: &str) -> (r: bool)
    ensures
        r == lex_less(
            spec_version_nums(current.spec_bytes()),
            spec_version_nums(latest.spec_bytes()),
        ),
{
    let l = version_nums(latest);
    let c = version_nums(current);
    proof {
        assert(c@.skip(0) =~= c@);
        assert(l@.skip(0) =~= l@);
    }
    let mut i: usize = 0;
    loop
        invariant
            c@ == spec_version_nums(current.spec_bytes()),
            l@ == spec_version_nums(latest.spec_bytes()),
            i <= l@.len(),
            i <= c@.len(),
            forall|j: int| 0 <= j < i ==> c@[j] == l@[j],
            lex_less(c@, l@) == lex_less(c@.skip(i as int), l@.skip(i as int)),
        decreases l@.len() - i,
    {
        if i == l.len() {
            proof {
                assert(l@.skip(i as int).len() == 0);
            }
            return false;
        }
        if i == c.len() {
            proof {
                assert(c@.skip(i as int).len() == 0);
                assert(l@.skip(i as int).len() > 0);
            }
            return true;
        }
        let cv = c[i];
        let lv = l[i];
        proof {
            assert(c@.skip(i as int)[0] == c@[i as int]);
            assert(l@.skip(i as int)[0] == l@[i as int]);
            assert(c@.skip(i as int).drop_first() =~= c@.skip(i as int + 1));
            assert(l@.skip(i as int).drop_first() =~= l@.skip(i as int + 1));
        }
        if cv < lv {
            return true;
        }
        if cv > lv {
            return false;
        }
        i = i + 1;
    }
}

} // verus!
