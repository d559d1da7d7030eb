use vstd::prelude::*;
use vstd::string::StrSliceExecFns;

verus! {

/// A character that a file name may not hold.
pub open spec fn forbidden_char(c: char) -> bool {
    c == '.' || c == '<' || c == '>' || c == ':' || c == '"' || c == '/' || c == '|' || c == '?'
        || c == '*'
}

/// A device name that cannot name a file: `CON`, `PRN`, `AUX`, `NUL`,
/// `COM1` to `COM9` and `LPT1` to `LPT9`.
pub open spec fn reserved_name(s: Seq<char>) -> bool {
    ||| s == seq!['C', 'O', 'N']
    ||| s == seq!['P', 'R', 'N']
    ||| s == seq!['A', 'U', 'X']
    ||| s == seq!['N', 'U', 'L']
    ||| s.len() == 4 && s[0] == 'C' && s[1] == 'O' && s[2] == 'M' && '1' <= s[3] && s[3] <= '9'
    ||| s.len() == 4 && s[0] == 'L' && s[1] == 'P' && s[2] == 'T' && '1' <= s[3] && s[3] <= '9'
}

/// A name that an output file may take: not empty, none of the forbidden
/// characters, and no device name.
pub open spec fn output_name_ok(s: Seq<char>) -> bool {
    &&& s.len() > 0
    &&& forall|i: int| 0 <= i < s.len() ==> !forbidden_char(#[trigger] s[i])
    &&& !reserved_name(s)
}

fn is_forbidden(c: char) -> (r: bool)
    ensures
        r == forbidden_char(c),
{
    c == '.' || c == '<' || c == '>' || c == ':' || c == '"' || c == '/' || c == '|' || c == '?'
        || c == '*'
}

fn is_reserved(s: &str) -> (r: bool)
    ensures
        r == reserved_name(s@),
{
    let n = s.unicode_len();
    if n == 3 {
        let (a, b, c) = (s.get_char(0), s.get_char(1), s.get_char(2));
        let r = (a == 'C' && b == 'O' && c == 'N') || (a == 'P' && b == 'R' && c == 'N') || (a
            == 'A' && b == 'U' && c == 'X') || (a == 'N' && b == 'U' && c == 'L');
        proof {
            if r {
                assert(s@ =~= seq![a, b, c]);
            } else {
                assert(seq!['C', 'O', 'N'][0] == 'C' && seq!['P', 'R', 'N'][0] == 'P');
                assert(seq!['A', 'U', 'X'][0] == 'A' && seq!['N', 'U', 'L'][0] == 'N');
                assert(seq!['C', 'O', 'N'][1] == 'O' && seq!['P', 'R', 'N'][1] == 'R');
                assert(seq!['A', 'U', 'X'][1] == 'U' && seq!['N', 'U', 'L'][1] == 'U');
                assert(seq!['C', 'O', 'N'][2] == 'N' && seq!['P', 'R', 'N'][2] == 'N');
                assert(seq!['A', 'U', 'X'][2] == 'X' && seq!['N', 'U', 'L'][2] == 'L');
            }
        }
        r
    } else if n == 4 {
        let (a, b, c, d) = (s.get_char(0), s.get_char(1), s.get_char(2), s.get_char(3));
        (a == 'C' && b == 'O' && c == 'M' || a == 'L' && b == 'P' && c == 'T') && '1' <= d && d
            <= '9'
    } else {
        proof {
            assert(seq!['C', 'O', 'N'].len() == 3);
            assert(seq!['P', 'R', 'N'].len() == 3);
            assert(seq!['A', 'U', 'X'].len() == 3);
            assert(seq!['N', 'U', 'L'].len() == 3);
        }
        false
    }
}

/// Whether `name` may name the output file.
pub fn output_name_valid(name: &str) -> (r: bool)
    ensures
        r == output_name_ok(name@),
{
    let n = name.unicode_len();
    if n == 0 {
        return false;
    }
    let mut i: usize = 0;
    while i < n
        invariant
            n == name@.len(),
            i <= n,
            forall|j: int| 0 <= j < i ==> !forbidden_char(#[trigger] name@[j]),
        decreases n - i,
    {
        if is_forbidden(name.get_char(i)) {
            return false;
        }
        i = i + 1;
    }
    !is_reserved(name)
}

} // verus!
