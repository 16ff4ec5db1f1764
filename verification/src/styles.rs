//! The style sheet: which paragraph styles are headings, and of what level.

use vstd::prelude::*;
use std::collections::HashMap;
use crate::bytes::{le16, read_u16};
use crate::error::{DocError, DocErrorView};

verus! {

broadcast use vstd::std_specs::hash::group_hash_axioms;

/// The heading level of a style whose `sti` is given: Heading 1-9 by their
/// own number, Title as level 1.
pub open spec fn heading_level(sti: u16) -> Option<u8> {
    if 1 <= sti && sti <= 9 {
        Some(sti as u8)
    } else if sti == 62 {
        Some(1u8)
    } else {
        None
    }
}

/// Reads the `LPStd` records from `pos`, the record at `pos` being style
/// `istd`: the heading levels found, and how many styles were counted.
pub open spec fn stsh_walk(stsh: Seq<u8>, pos: int, istd: int, m: Map<u16, u8>) -> (
    Map<u16, u8>,
    int,
)
    decreases stsh.len() - pos,
{
    if pos < 0 || pos + 2 > stsh.len() {
        (m, istd)
    } else {
        let cb = le16(stsh, pos) as int;
        let p2 = pos + 2;
        if cb == 0 {
            stsh_walk(stsh, p2, istd + 1, m)
        } else if p2 + cb > stsh.len() {
            (m, istd)
        } else if cb < 4 {
            stsh_walk(stsh, p2 + cb, istd + 1, m)
        } else {
            let sti = le16(stsh, p2) & 0x0FFFu16;
            let m2 = match heading_level(sti) {
                Some(level) => m.insert(istd as u16, level),
                None => m,
            };
            stsh_walk(stsh, p2 + cb, istd + 1, m2)
        }
    }
}

/// The heading levels of the style sheet at `fc_stshf`: `None` where it
/// holds more than 65535 styles, so that the style counter overflows.
pub open spec fn spec_parse_stsh(table: Seq<u8>, fc_stshf: u32, lcb_stshf: u32) -> Option<
    Result<Map<u16, u8>, DocErrorView>,
> {
    let start = fc_stshf as int;
    let end = start + lcb_stshf as int;
    if end > table.len() {
        Some(Err(DocErrorView::StshOutOfRange))
    } else {
        let stsh = table.subrange(start, end);
        if stsh.len() < 2 {
            Some(Err(DocErrorView::StshTooShort))
        } else {
            let (m, count) = stsh_walk(stsh, 2 + le16(stsh, 0) as int, 0, Map::empty());
            if count > 65535 {
                None
            } else {
                Some(Ok(m))
            }
        }
    }
}

/// The view of a style-sheet result.
pub open spec fn stsh_result_view(r: Result<HashMap<u16, u8>, DocError>) -> Result<
    Map<u16, u8>,
    DocErrorView,
> {
    match r {
        Ok(m) => Ok(m@),
        Err(e) => Err(e@),
    }
}

/// The style counter only grows along the walk.
pub proof fn lemma_walk_count_grows(stsh: Seq<u8>, pos: int, istd: int, m: Map<u16, u8>)
    ensures
        stsh_walk(stsh, pos, istd, m).1 >= istd,
    decreases stsh.len() - pos,
{
    if pos < 0 || pos + 2 > stsh.len() {
    } else {
        let cb = le16(stsh, pos) as int;
        let p2 = pos + 2;
        if cb == 0 {
            lemma_walk_count_grows(stsh, p2, istd + 1, m);
        } else if p2 + cb > stsh.len() {
        } else if cb < 4 {
            lemma_walk_count_grows(stsh, p2 + cb, istd + 1, m);
        } else {
            let sti = le16(stsh, p2) & 0x0FFFu16;
            let m2 = match heading_level(sti) {
                Some(level) => m.insert(istd as u16, level),
                None => m,
            };
            lemma_walk_count_grows(stsh, p2 + cb, istd + 1, m2);
        }
    }
}

/// `parse_stsh` on every input: `None` exactly where its precondition fails.
pub fn try_parse_stsh(table: &[u8], fc_stshf: u32, lcb_stshf: u32) -> (r: Option<
    Result<HashMap<u16, u8>, DocError>,
>)
    ensures
        match r {
            Some(res) => spec_parse_stsh(table@, fc_stshf, lcb_stshf) == Some(
                stsh_result_view(res),
            ),
            None => spec_parse_stsh(table@, fc_stshf, lcb_stshf) is None,
        },
{
    let len = table.len();
    if fc_stshf as u64 + lcb_stshf as u64 > len as u64 {
        return Some(Err(DocError::StshOutOfRange));
    }
    let start = fc_stshf as usize;
    let end = start + lcb_stshf as usize;
    let ghost stsh = table@.subrange(start as int, end as int);
    // LPStshi: 2 bytes cbStshi, then Stshi data
    if end - start < 2 {
        return Some(Err(DocError::StshTooShort));
    }
    let cb_stshi = read_u16(table, start) as usize;
    assert(le16(stsh, 0) == cb_stshi) by {
        assert(stsh[0] == table@[start as int]);
        assert(stsh[1] == table@[start + 1]);
    }
    let mut pos: usize = if cb_stshi <= end - (start + 2) {
        start + 2 + cb_stshi
    } else {
        end
    };
    let mut map: HashMap<u16, u8> = HashMap::new();
    let mut istd: u16 = 0;
    let ghost goal = stsh_walk(stsh, 2 + cb_stshi as int, 0, Map::empty());
    assert(goal == stsh_walk(stsh, pos - start, 0, Map::<u16, u8>::empty()));
    let mut done = false;
    while pos < end && !done
        invariant
            start <= end <= table@.len(),
            start + 2 <= pos <= end,
            start == fc_stshf,
            end == fc_stshf + lcb_stshf,
            le16(stsh, 0) == cb_stshi,
            goal == stsh_walk(stsh, 2 + cb_stshi as int, 0, Map::<u16, u8>::empty()),
            stsh == table@.subrange(start as int, end as int),
            !done ==> goal == stsh_walk(stsh, pos - start, istd as int, map@),
            done ==> goal == (map@, istd as int),
        decreases end - pos + if done {
            0int
        } else {
            1int
        },
    {
        let rel = pos - start;
        // LPStd: 2 bytes cbStd
        if end - pos < 2 {
            done = true;
        } else {
            let cb_std = read_u16(table, pos) as usize;
            assert(le16(stsh, rel as int) == cb_std) by {
                assert(stsh[rel as int] == table@[pos as int]);
                assert(stsh[rel + 1] == table@[pos + 1]);
            }
            let p2 = pos + 2;
            if cb_std == 0 {
                assert(goal == stsh_walk(stsh, p2 - start, istd + 1, map@));
                if istd == 65535 {
                    proof {
                        lemma_walk_count_grows(stsh, p2 - start, istd + 1, map@);
                        assert(goal.1 > 65535);
                    }
                    return None;
                }
                istd = istd + 1;
                pos = p2;
            } else if end - p2 < cb_std {
                done = true;
            } else {
                let p3 = p2 + cb_std;
                let ghost old_map = map@;
                // StdfBase: sti in the first 2 bytes, bits 0-11
                if cb_std >= 4 {
                    let sti_raw = read_u16(table, p2);
                    assert(le16(stsh, p2 - start) == sti_raw) by {
                        assert(stsh[p2 - start] == table@[p2 as int]);
                        assert(stsh[p2 - start + 1] == table@[p2 + 1]);
                    }
                    let sti = sti_raw & 0x0FFF;
                    // sti 1-9 = Heading 1-9, sti 62 = Title (treat as Heading 1)
                    if 1 <= sti && sti <= 9 {
                        map.insert(istd, sti as u8);
                    } else if sti == 62 {
                        map.insert(istd, 1);
                    }
                }
                assert(goal == stsh_walk(stsh, p3 - start, istd + 1, map@));
                if istd == 65535 {
                    proof {
                        lemma_walk_count_grows(stsh, p3 - start, istd + 1, map@);
                        assert(goal.1 > 65535);
                    }
                    return None;
                }
                istd = istd + 1;
                pos = p3;
            }
        }
    }
    if !done {
        assert(goal == (map@, istd as int));
    }
    Some(Ok(map))
}

/// Returns a map from istd (style index) to heading level (1-9), for the
/// heading styles only.
pub fn parse_stsh(table: &[u8], fc_stshf: u32, lcb_stshf: u32) -> (r: Result<
    HashMap<u16, u8>,
    DocError,
>)
    requires
        spec_parse_stsh(table@, fc_stshf, lcb_stshf) is Some,
    ensures
        spec_parse_stsh(table@, fc_stshf, lcb_stshf) == Some(stsh_result_view(r)),
{
    match try_parse_stsh(table, fc_stshf, lcb_stshf) {
        Some(r) => r,
        None => {
            proof {
                assert(false);
            }
            Err(DocError::StshTooShort)
        },
    }
}

} // verus!
