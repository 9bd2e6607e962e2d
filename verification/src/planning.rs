//! The parts of flight planning that are not arithmetic on measured
//! quantities: which choices a performance table offers.
use crate::sorting::{lemma_text_lt_total, lemma_text_lt_trans, text_less, text_lt};
use crate::text::{to_chars, vec_eq};
use vstd::prelude::*;

verus! {

pub open spec fn views(s: Seq<String>) -> Seq<Seq<char>> {
    s.map_values(|x: String| x@)
}

/// Each text sorts strictly before the next (so none occurs twice).
pub open spec fn strictly_sorted(s: Seq<Seq<char>>) -> bool {
    forall|i: int, j: int| 0 <= i < j < s.len() ==> text_lt(#[trigger] s[i], #[trigger] s[j])
}

proof fn lemma_push_contains(s: Seq<Seq<char>>, a: Seq<char>, x: Seq<char>)
    ensures
        s.push(a).contains(x) <==> (s.contains(x) || x == a),
{
    if s.push(a).contains(x) {
        let w = choose|w: int| 0 <= w < s.push(a).len() && s.push(a)[w] == x;
        if w < s.len() {
            assert(s[w] == x);
        }
    }
    if s.contains(x) {
        let w = choose|w: int| 0 <= w < s.len() && s[w] == x;
        assert(s.push(a)[w] == x);
    }
    if x == a {
        assert(s.push(a)[s.len() as int] == x);
    }
}

/// The distinct power settings a cruise table records (one entry per
/// table row), sorted as `String` sorts, for a UI that has to offer the
/// choice.
pub fn cruise_power_settings(recorded: &[String]) -> (r: Vec<String>)
    ensures
        strictly_sorted(views(r@)),
        forall|x: Seq<char>| #[trigger] views(r@).contains(x) <==> views(recorded@).contains(x),
{
    let mut out: Vec<String> = Vec::new();
    let mut k: usize = 0;
    while k < recorded.len()
        invariant
            0 <= k <= recorded@.len(),
            strictly_sorted(views(out@)),
            forall|x: Seq<char>|
                #[trigger] views(out@).contains(x) <==> views(recorded@.take(k as int)).contains(x),
        decreases recorded.len() - k,
    {
        let item = &recorded[k];
        let iv = to_chars(item.as_str());
        let ghost ov = views(out@);
        let mut p: usize = 0;
        while p < out.len() && text_less(&to_chars(out[p].as_str()), &iv)
            invariant
                0 <= p <= out@.len(),
                ov == views(out@),
                iv@ == item@,
                forall|i: int| 0 <= i < p ==> text_lt(#[trigger] ov[i], iv@),
            decreases out.len() - p,
        {
            p = p + 1;
        }
        let present = p < out.len() && vec_eq(&to_chars(out[p].as_str()), &iv);
        proof {
            assert(recorded@.take(k + 1) =~= recorded@.take(k as int).push(recorded@[k as int]));
            assert(views(recorded@.take(k + 1)) =~= views(recorded@.take(k as int)).push(item@));
            // everything from p on sorts after (or is) the item
            assert forall|i: int| p <= i < ov.len() implies !text_lt(#[trigger] ov[i], iv@) by {
                if p < ov.len() {
                    assert(!text_lt(ov[p as int], iv@));
                    if i > p {
                        if text_lt(ov[i], iv@) {
                            lemma_text_lt_trans(ov[p as int], ov[i], iv@);
                        }
                    }
                }
            }
        }
        if !present {
            out.insert(p, item.clone());
            proof {
                let nv = views(out@);
                assert(nv =~= ov.insert(p as int, iv@));
                assert forall|i: int, j: int| 0 <= i < j < nv.len() implies text_lt(
                    #[trigger] nv[i],
                    #[trigger] nv[j],
                ) by {
                    if j == p {
                        assert(text_lt(ov[i], iv@));
                    } else if i == p {
                        assert(nv[j] == ov[j - 1]);
                        assert(!text_lt(ov[j - 1], iv@));
                        lemma_text_lt_total(ov[j - 1], iv@);
                        if ov[j - 1] == iv@ && j - 1 > p {
                            assert(text_lt(ov[p as int], ov[j - 1]));
                        }
                    } else if i < p && j > p {
                        assert(text_lt(ov[i], iv@));
                        assert(!text_lt(ov[j - 1], iv@));
                        lemma_text_lt_total(ov[j - 1], iv@);
                        if ov[j - 1] == iv@ && j - 1 > p {
                            assert(text_lt(ov[p as int], ov[j - 1]));
                        }
                        if ov[j - 1] != iv@ {
                            lemma_text_lt_trans(ov[i], iv@, ov[j - 1]);
                        }
                    } else if i < p {
                        assert(nv[i] == ov[i] && nv[j] == ov[j]);
                    } else {
                        assert(nv[i] == ov[i - 1] && nv[j] == ov[j - 1]);
                    }
                }
                assert forall|x: Seq<char>| #[trigger] nv.contains(x) <==> views(
                    recorded@.take(k + 1),
                ).contains(x) by {
                    lemma_push_contains(views(recorded@.take(k as int)), iv@, x);
                    if nv.contains(x) {
                        let w = choose|w: int| 0 <= w < nv.len() && nv[w] == x;
                        if w != p {
                            if w < p {
                                assert(ov.contains(ov[w]));
                            } else {
                                assert(ov.contains(ov[w - 1]));
                            }
                        }
                    }
                    if views(recorded@.take(k + 1)).contains(x) {
                        if x == iv@ {
                            assert(nv[p as int] == x);
                        } else {
                            assert(views(recorded@.take(k as int)).contains(x));
                            assert(ov.contains(x));
                            let w = choose|w: int| 0 <= w < ov.len() && ov[w] == x;
                            if w < p {
                                assert(nv[w] == x);
                            } else {
                                assert(nv[w + 1] == x);
                            }
                        }
                    }
                }
            }
        } else {
            proof {
                assert(ov[p as int] == iv@);
                assert forall|x: Seq<char>| #[trigger] ov.contains(x) <==> views(
                    recorded@.take(k + 1),
                ).contains(x) by {
                    lemma_push_contains(views(recorded@.take(k as int)), iv@, x);
                    if views(recorded@.take(k + 1)).contains(x) && x == iv@ {
                        assert(ov.contains(ov[p as int]));
                    }
                    if views(recorded@.take(k + 1)).contains(x) && x != iv@ {
                        assert(views(recorded@.take(k as int)).contains(x));
                    }
                }
            }
        }
        k = k + 1;
    }
    assert(recorded@.take(recorded@.len() as int) =~= recorded@);
    out
}

} // verus!
