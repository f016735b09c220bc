use vstd::prelude::*;

verus! {

// Lua character classes are byte-oriented and fixed to ASCII: bytes at or
// above 128 belong to no lower-case class and to every upper-case
// complement.

/// Member of `%a`: an ASCII letter.
pub open spec fn spec_is_alpha(c: u8) -> bool {
    (65 <= c <= 90) || (97 <= c <= 122)
}

/// Member of `%d`: an ASCII decimal digit.
pub open spec fn spec_is_digit(c: u8) -> bool {
    48 <= c <= 57
}

/// Member of `%l`: an ASCII lower-case letter.
pub open spec fn spec_is_lower(c: u8) -> bool {
    97 <= c <= 122
}

/// Member of `%u`: an ASCII upper-case letter.
pub open spec fn spec_is_upper(c: u8) -> bool {
    65 <= c <= 90
}

/// Member of `%s`: an ASCII space character.
pub open spec fn spec_is_space(c: u8) -> bool {
    c == 32 || (9 <= c <= 13)
}

/// Member of `%c`: an ASCII control character.
pub open spec fn spec_is_cntrl(c: u8) -> bool {
    c < 32 || c == 127
}

/// Member of `%g`: a printable ASCII character other than space.
pub open spec fn spec_is_graph(c: u8) -> bool {
    33 <= c <= 126
}

/// Member of `%w`: an ASCII letter or digit.
pub open spec fn spec_is_alnum(c: u8) -> bool {
    spec_is_alpha(c) || spec_is_digit(c)
}

/// Member of `%p`: a printable ASCII character that is neither a letter,
/// a digit nor space.
pub open spec fn spec_is_punct(c: u8) -> bool {
    spec_is_graph(c) && !spec_is_alnum(c)
}

/// Member of `%x`: an ASCII hexadecimal digit.
pub open spec fn spec_is_hex(c: u8) -> bool {
    spec_is_digit(c) || (65 <= c <= 70) || (97 <= c <= 102)
}

/// Whether byte `c` matches the class escape `%cl`. A lower-case class
/// letter selects the class, its upper-case partner the complement, and
/// any other byte matches only itself (this is how `%.` or `%%` escape a
/// magic byte).
pub open spec fn spec_class_match(cl: u8, c: u8) -> bool {
    if cl == 97 {  // a
        spec_is_alpha(c)
    } else if cl == 65 {  // A
        !spec_is_alpha(c)
    } else if cl == 99 {  // c
        spec_is_cntrl(c)
    } else if cl == 67 {  // C
        !spec_is_cntrl(c)
    } else if cl == 100 {  // d
        spec_is_digit(c)
    } else if cl == 68 {  // D
        !spec_is_digit(c)
    } else if cl == 103 {  // g
        spec_is_graph(c)
    } else if cl == 71 {  // G
        !spec_is_graph(c)
    } else if cl == 108 {  // l
        spec_is_lower(c)
    } else if cl == 76 {  // L
        !spec_is_lower(c)
    } else if cl == 112 {  // p
        spec_is_punct(c)
    } else if cl == 80 {  // P
        !spec_is_punct(c)
    } else if cl == 115 {  // s
        spec_is_space(c)
    } else if cl == 83 {  // S
        !spec_is_space(c)
    } else if cl == 117 {  // u
        spec_is_upper(c)
    } else if cl == 85 {  // U
        !spec_is_upper(c)
    } else if cl == 119 {  // w
        spec_is_alnum(c)
    } else if cl == 87 {  // W
        !spec_is_alnum(c)
    } else if cl == 120 {  // x
        spec_is_hex(c)
    } else if cl == 88 {  // X
        !spec_is_hex(c)
    } else {
        cl == c
    }
}

/// Whether byte `c` matches the class escape `%cl`.
pub fn class_match(cl: u8, c: u8) -> (r: bool)
    ensures
        r == spec_class_match(cl, c),
{
    if cl == 97 {
        (65 <= c && c <= 90) || (97 <= c && c <= 122)
    } else if cl == 65 {
        !((65 <= c && c <= 90) || (97 <= c && c <= 122))
    } else if cl == 99 {
        c < 32 || c == 127
    } else if cl == 67 {
        !(c < 32 || c == 127)
    } else if cl == 100 {
        48 <= c && c <= 57
    } else if cl == 68 {
        !(48 <= c && c <= 57)
    } else if cl == 103 {
        33 <= c && c <= 126
    } else if cl == 71 {
        !(33 <= c && c <= 126)
    } else if cl == 108 {
        97 <= c && c <= 122
    } else if cl == 76 {
        !(97 <= c && c <= 122)
    } else if cl == 112 {
        (33 <= c && c <= 126) && !((65 <= c && c <= 90) || (97 <= c && c <= 122) || (48 <= c && c
            <= 57))
    } else if cl == 80 {
        !((33 <= c && c <= 126) && !((65 <= c && c <= 90) || (97 <= c && c <= 122) || (48 <= c && c
            <= 57)))
    } else if cl == 115 {
        c == 32 || (9 <= c && c <= 13)
    } else if cl == 83 {
        !(c == 32 || (9 <= c && c <= 13))
    } else if cl == 117 {
        65 <= c && c <= 90
    } else if cl == 85 {
        !(65 <= c && c <= 90)
    } else if cl == 119 {
        (65 <= c && c <= 90) || (97 <= c && c <= 122) || (48 <= c && c <= 57)
    } else if cl == 87 {
        !((65 <= c && c <= 90) || (97 <= c && c <= 122) || (48 <= c && c <= 57))
    } else if cl == 120 {
        (48 <= c && c <= 57) || (65 <= c && c <= 70) || (97 <= c && c <= 102)
    } else if cl == 88 {
        !((48 <= c && c <= 57) || (65 <= c && c <= 70) || (97 <= c && c <= 102))
    } else {
        cl == c
    }
}

/// Whether byte `c` is named by the members of a class set whose body
/// spans `p[i..ec]` (negation already stripped, `p[ec]` is the closing
/// bracket). Members are tried left to right: a `%x` escape, a range
/// `lo-hi`, or a single literal byte.
pub open spec fn spec_set_members(c: u8, p: Seq<u8>, i: int, ec: int) -> bool
    decreases ec - i,
    when i <= ec <= p.len()
{
    if i >= ec {
        false
    } else if p[i] == 37 && i + 1 < ec {  // %
        spec_class_match(p[i + 1], c) || spec_set_members(c, p, i + 2, ec)
    } else if i + 2 < ec && p[i + 1] == 45 {  // -
        (p[i] <= c && c <= p[i + 2]) || spec_set_members(c, p, i + 3, ec)
    } else {
        p[i] == c || spec_set_members(c, p, i + 1, ec)
    }
}

/// Whether byte `c` matches the class set starting with `[` at `p[pi]`
/// and closed by `]` at `p[ec]`. A `^` right after the `[` complements
/// the set.
pub open spec fn spec_set_match(c: u8, p: Seq<u8>, pi: int, ec: int) -> bool {
    if pi + 1 < p.len() && p[pi + 1] == 94 {  // ^
        !spec_set_members(c, p, pi + 2, ec)
    } else {
        spec_set_members(c, p, pi + 1, ec)
    }
}

/// Walks the members of a class set body, testing byte `c`.
fn set_members(c: u8, p: &[u8], i: usize, ec: usize) -> (r: bool)
    requires
        i <= ec <= p@.len(),
    ensures
        r == spec_set_members(c, p@, i as int, ec as int),
    decreases ec - i,
{
    if i >= ec {
        false
    } else if p[i] == 37 && i + 1 < ec {
        if class_match(p[i + 1], c) {
            true
        } else {
            set_members(c, p, i + 2, ec)
        }
    } else if ec - i > 2 && p[i + 1] == 45 {
        if p[i] <= c && c <= p[i + 2] {
            true
        } else {
            set_members(c, p, i + 3, ec)
        }
    } else {
        if p[i] == c {
            true
        } else {
            set_members(c, p, i + 1, ec)
        }
    }
}

/// Whether byte `c` matches the class set `p[pi..=ec]`.
pub fn set_match(c: u8, p: &[u8], pi: usize, ec: usize) -> (r: bool)
    requires
        pi + 2 <= ec < p@.len(),
    ensures
        r == spec_set_match(c, p@, pi as int, ec as int),
{
    if pi + 1 < p.len() && p[pi + 1] == 94 {
        !set_members(c, p, pi + 2, ec)
    } else {
        set_members(c, p, pi + 1, ec)
    }
}

} // verus!
