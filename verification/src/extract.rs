//! Address extractor: finds the IPv4 address that the management tool's
//! diagnostic text reports for the labelled field `IP Address`.
//!
//! The matching policy mirrors the tool's loose output format: a line (text
//! up to the next line feed) must contain the label `IP Address`, followed
//! eventually on the same line by a colon and one space, and then four
//! dot-separated groups of digits.  The first three groups must be runs of
//! one to three digits each; of the final run of digits, at most the first
//! three are taken.  Octet values are deliberately not range-checked, so a
//! group such as `999` is accepted; tightening this would change which
//! texts are accepted and is left as documented behaviour.
//!
//! All text is handled as raw bytes; only ASCII bytes are significant.

use vstd::prelude::*;
use vstd::slice::slice_subrange;
use vstd::slice::slice_to_vec;

verus! {

/// Failure of the extractor: no line of the text carries the labelled
/// address.
#[derive(Debug, PartialEq, Eq, Structural)]
pub enum ExtractError {
    NotFound,
}

/// ASCII decimal digit.
pub open spec fn is_digit(b: u8) -> bool {
    48 <= b <= 57
}

/// The bytes of the label `IP Address`.
pub open spec fn spec_label() -> Seq<u8> {
    seq![73u8, 80, 32, 65, 100, 100, 114, 101, 115, 115]
}

/// The label occurs in `t` starting at `i`.
pub open spec fn label_at(t: Seq<u8>, i: int) -> bool {
    0 <= i && i + 10 <= t.len() && t.subrange(i, i + 10) == spec_label()
}

/// Length of the run of digits in `t` starting at `p`.
pub open spec fn digit_run_len(t: Seq<u8>, p: int) -> int
    decreases t.len() - p,
{
    if 0 <= p < t.len() && is_digit(t[p]) {
        1 + digit_run_len(t, p + 1)
    } else {
        0
    }
}

/// One dotted group: a run of one to three digits followed by a dot.
/// Returns the position just after the dot.  The whole digit run must fit
/// in three digits: a longer run cannot be split, because the byte after
/// the accepted digits has to be the dot itself.
pub open spec fn group_end(t: Seq<u8>, p: int) -> Option<int> {
    let r = digit_run_len(t, p);
    if 1 <= r <= 3 && p + r < t.len() && t[p + r] == 46 {
        Some(p + r + 1)
    } else {
        None
    }
}

/// A dotted quad starting at `p`: three digit groups each followed by a
/// dot, then a final run of at least one digit of which at most three are
/// taken.  Returns the position just after the accepted digits.
pub open spec fn quad_end(t: Seq<u8>, p: int) -> Option<int> {
    match group_end(t, p) {
        Some(p1) => match group_end(t, p1) {
            Some(p2) => match group_end(t, p2) {
                Some(p3) => {
                    let r = digit_run_len(t, p3);
                    if r >= 1 {
                        Some(p3 + if r <= 3 { r } else { 3 })
                    } else {
                        None
                    }
                },
                None => None,
            },
            None => None,
        },
        None => None,
    }
}

/// First position `j` at or after `p`, and before the end of the current
/// line, where a colon and a space are followed by a dotted quad.
pub open spec fn colon_scan(t: Seq<u8>, p: int) -> Option<int>
    decreases t.len() - p,
{
    if 0 <= p && p + 1 < t.len() {
        if t[p] == 10 {
            None
        } else if t[p] == 58 && t[p + 1] == 32 && quad_end(t, p + 2) is Some {
            Some(p)
        } else {
            colon_scan(t, p + 1)
        }
    } else {
        None
    }
}

/// Scan for the first label occurrence at or after `i` that is followed,
/// on the same line, by a viable colon.  Returns the start and end of the
/// matched dotted quad.
pub open spec fn spec_scan(t: Seq<u8>, i: int) -> Option<(int, int)>
    decreases t.len() - i,
{
    if 0 <= i && i + 10 <= t.len() {
        if label_at(t, i) && colon_scan(t, i + 10) is Some {
            let j = colon_scan(t, i + 10)->Some_0;
            Some((j + 2, quad_end(t, j + 2)->Some_0))
        } else {
            spec_scan(t, i + 1)
        }
    } else {
        None
    }
}

/// The extractor's result on `t`: the bytes of the first matched dotted
/// quad, if any line matches.
pub open spec fn spec_extract(t: Seq<u8>) -> Option<Seq<u8>> {
    match spec_scan(t, 0) {
        Some((a, e)) => Some(t.subrange(a, e)),
        None => None,
    }
}

/// Declarative form of a match: a label at `i` and a viable colon at `j`
/// with no line break between them.
pub open spec fn pattern_at(t: Seq<u8>, i: int, j: int) -> bool {
    &&& label_at(t, i)
    &&& i + 10 <= j
    &&& j + 1 < t.len()
    &&& t[j] == 58
    &&& t[j + 1] == 32
    &&& quad_end(t, j + 2) is Some
    &&& forall|k: int| i <= k < j ==> t[k] != 10
}

proof fn lemma_colon_scan_sound(t: Seq<u8>, p: int)
    requires
        colon_scan(t, p) is Some,
    ensures
        ({
            let j = colon_scan(t, p)->Some_0;
            &&& p <= j
            &&& j + 1 < t.len()
            &&& t[j] == 58
            &&& t[j + 1] == 32
            &&& quad_end(t, j + 2) is Some
            &&& forall|k: int| p <= k < j ==> t[k] != 10
        }),
    decreases t.len() - p,
{
    if 0 <= p && p + 1 < t.len() {
        if t[p] == 10 {
        } else if t[p] == 58 && t[p + 1] == 32 && quad_end(t, p + 2) is Some {
        } else {
            lemma_colon_scan_sound(t, p + 1);
        }
    }
}

proof fn lemma_colon_scan_complete(t: Seq<u8>, p: int, j: int)
    requires
        0 <= p <= j,
        j + 1 < t.len(),
        t[j] == 58,
        t[j + 1] == 32,
        quad_end(t, j + 2) is Some,
        forall|k: int| p <= k < j ==> t[k] != 10,
    ensures
        colon_scan(t, p) is Some,
    decreases j - p,
{
    if p < j {
        if t[p] == 58 && t[p + 1] == 32 && quad_end(t, p + 2) is Some {
        } else {
            lemma_colon_scan_complete(t, p + 1, j);
        }
    }
}

proof fn lemma_scan_sound(t: Seq<u8>, i: int)
    requires
        spec_scan(t, i) is Some,
    ensures
        exists|i0: int, j0: int|
            pattern_at(t, i0, j0) && spec_scan(t, i) == Some(
                (j0 + 2, quad_end(t, j0 + 2)->Some_0),
            ),
    decreases t.len() - i,
{
    if 0 <= i && i + 10 <= t.len() {
        if label_at(t, i) && colon_scan(t, i + 10) is Some {
            let j = colon_scan(t, i + 10)->Some_0;
            lemma_colon_scan_sound(t, i + 10);
            assert(forall|k: int| 0 <= k < 10 ==> t[i + k] == spec_label()[k]) by {
                assert(forall|k: int|
                    0 <= k < 10 ==> t.subrange(i, i + 10)[k] == spec_label()[k]);
            }
            assert(forall|k: int| i <= k < j ==> t[k] != 10) by {
                assert(forall|k: int| i <= k < i + 10 ==> t[k] == spec_label()[k - i] && t[k]
                    != 10);
            }
            assert(pattern_at(t, i, j));
        } else {
            lemma_scan_sound(t, i + 1);
        }
    }
}

proof fn lemma_scan_complete(t: Seq<u8>, i: int, i0: int, j0: int)
    requires
        pattern_at(t, i0, j0),
        0 <= i <= i0,
    ensures
        spec_scan(t, i) is Some,
    decreases i0 - i,
{
    if label_at(t, i) && colon_scan(t, i + 10) is Some {
    } else if i == i0 {
        lemma_colon_scan_complete(t, i0 + 10, j0);
    } else {
        lemma_scan_complete(t, i + 1, i0, j0);
    }
}

/// The extractor finds an address exactly when some line of the text
/// contains the label followed, on that line, by a colon, a space and a
/// dotted quad of digit groups; and what it returns is the quad standing
/// after such a colon.
pub proof fn lemma_extract_characterization(t: Seq<u8>)
    ensures
        (spec_extract(t) is Some) <==> (exists|i: int, j: int| pattern_at(t, i, j)),
        spec_extract(t) is Some ==> exists|i: int, j: int|
            pattern_at(t, i, j) && spec_extract(t) == Some(
                t.subrange(j + 2, quad_end(t, j + 2)->Some_0),
            ),
{
    if spec_extract(t) is Some {
        lemma_scan_sound(t, 0);
        let (i0, j0) = choose|i0: int, j0: int|
            pattern_at(t, i0, j0) && spec_scan(t, 0) == Some(
                (j0 + 2, quad_end(t, j0 + 2)->Some_0),
            );
        assert(pattern_at(t, i0, j0) && spec_extract(t) == Some(
            t.subrange(j0 + 2, quad_end(t, j0 + 2)->Some_0),
        ));
    }
    if exists|i: int, j: int| pattern_at(t, i, j) {
        let (i0, j0) = choose|i: int, j: int| pattern_at(t, i, j);
        lemma_scan_complete(t, 0, i0, j0);
    }
}

fn digit_run(s: &[u8], p: usize) -> (r: usize)
    requires
        p <= s.len(),
    ensures
        r == digit_run_len(s@, p as int),
        p + r <= s.len(),
    decreases s.len() - p,
{
    if p < s.len() && 48 <= s[p] && s[p] <= 57 {
        1 + digit_run(s, p + 1)
    } else {
        0
    }
}

fn group_end_exec(s: &[u8], p: usize) -> (r: Option<usize>)
    requires
        p <= s.len(),
    ensures
        match r {
            Some(q) => group_end(s@, p as int) == Some(q as int) && q <= s.len(),
            None => group_end(s@, p as int) is None,
        },
{
    let r = digit_run(s, p);
    if 1 <= r && r <= 3 && p + r < s.len() && s[p + r] == 46 {
        Some(p + r + 1)
    } else {
        None
    }
}

fn quad_end_exec(s: &[u8], p: usize) -> (r: Option<usize>)
    requires
        p <= s.len(),
    ensures
        match r {
            Some(q) => quad_end(s@, p as int) == Some(q as int) && p <= q <= s.len(),
            None => quad_end(s@, p as int) is None,
        },
{
    match group_end_exec(s, p) {
        Some(p1) => match group_end_exec(s, p1) {
            Some(p2) => match group_end_exec(s, p2) {
                Some(p3) => {
                    let r = digit_run(s, p3);
                    if r >= 1 {
                        Some(p3 + if r <= 3 { r } else { 3 })
                    } else {
                        None
                    }
                },
                None => None,
            },
            None => None,
        },
        None => None,
    }
}

fn colon_scan_exec(s: &[u8], p: usize) -> (r: Option<usize>)
    requires
        p <= s.len(),
    ensures
        match r {
            Some(j) => colon_scan(s@, p as int) == Some(j as int) && j + 2 <= s.len()
                && quad_end(s@, j as int + 2) is Some,
            None => colon_scan(s@, p as int) is None,
        },
    decreases s.len() - p,
{
    if s.len() - p >= 2 {
        if s[p] == 10 {
            None
        } else if s[p] == 58 && s[p + 1] == 32 && quad_end_exec(s, p + 2).is_some() {
            Some(p)
        } else {
            colon_scan_exec(s, p + 1)
        }
    } else {
        None
    }
}

/// The label check at one position, byte for byte.
fn label_at_exec(s: &[u8], i: usize) -> (r: bool)
    requires
        i <= s.len(),
    ensures
        r == label_at(s@, i as int),
{
    if s.len() - i < 10 {
        return false;
    }
    let r = s[i] == 73 && s[i + 1] == 80 && s[i + 2] == 32 && s[i + 3] == 65 && s[i + 4] == 100
        && s[i + 5] == 100 && s[i + 6] == 114 && s[i + 7] == 101 && s[i + 8] == 115 && s[i + 9]
        == 115;
    if r {
        assert(s@.subrange(i as int, i + 10) =~= spec_label());
    } else {
        assert(s@.subrange(i as int, i + 10) != spec_label()) by {
            if s@.subrange(i as int, i + 10) == spec_label() {
                assert(forall|k: int|
                    0 <= k < 10 ==> s@.subrange(i as int, i + 10)[k] == spec_label()[k]);
            }
        }
    }
    r
}

fn scan_exec(s: &[u8], i: usize) -> (r: Option<(usize, usize)>)
    requires
        i <= s.len(),
    ensures
        match r {
            Some((a, e)) => spec_scan(s@, i as int) == Some((a as int, e as int)) && a <= e
                <= s.len(),
            None => spec_scan(s@, i as int) is None,
        },
    decreases s.len() - i,
{
    if s.len() - i >= 10 {
        if label_at_exec(s, i) {
            match colon_scan_exec(s, i + 10) {
                Some(j) => {
                    match quad_end_exec(s, j + 2) {
                        Some(e) => {
                            return Some((j + 2, e));
                        },
                        None => {
                            assert(false);
                            return None;
                        },
                    }
                },
                None => {
                    return scan_exec(s, i + 1);
                },
            }
        } else {
            return scan_exec(s, i + 1);
        }
    } else {
        return None;
    }
}

/// Finds the IPv4 address that the diagnostic text reports under the label
/// `IP Address`, or fails with `NotFound` when no line carries one.
pub fn extract_ipv4(s: &[u8]) -> (r: Result<Vec<u8>, ExtractError>)
    ensures
        match r {
            Ok(v) => spec_extract(s@) == Some(v@),
            Err(e) => spec_extract(s@) is None && e == ExtractError::NotFound,
        },
{
    match scan_exec(s, 0) {
        Some((a, e)) => Ok(slice_to_vec(slice_subrange(s, a, e))),
        None => Err(ExtractError::NotFound),
    }
}

} // verus!
