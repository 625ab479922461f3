use vstd::prelude::*;

verus! {

/// Unicode White_Space, the set that `char::is_whitespace` tests.
pub open spec fn is_ws(c: char) -> bool {
    let u = c as u32;
    (9 <= u && u <= 13) || u == 32 || u == 0x85 || u == 0xa0 || u == 0x1680
        || (0x2000 <= u && u <= 0x200a) || u == 0x2028 || u == 0x2029 || u == 0x202f
        || u == 0x205f || u == 0x3000
}

/// The first position at or after `i` where `") "` begins.
pub open spec fn find_paren_space(s: Seq<char>, i: int) -> Option<int>
    decreases s.len() - i,
{
    if i < 0 || i + 1 >= s.len() {
        None
    } else if s[i] == ')' && s[i + 1] == ' ' {
        Some(i)
    } else {
        find_paren_space(s, i + 1)
    }
}

/// The first position at or after `i` that holds whitespace.
pub open spec fn find_ws(s: Seq<char>, i: int) -> Option<int>
    decreases s.len() - i,
{
    if i < 0 || i >= s.len() {
        None
    } else if is_ws(s[i]) {
        Some(i)
    } else {
        find_ws(s, i + 1)
    }
}

/// The version in the first line of `tshark --version`: the word after the first
/// `") "`, which must end in whitespace, without one trailing dot.
pub open spec fn tshark_version_of(s: Seq<char>) -> Option<Seq<char>> {
    match find_paren_space(s, 0) {
        None => None,
        Some(p) => match find_ws(s, p + 2) {
            None => None,
            Some(e) => {
                let w = s.subrange(p + 2, e);
                if w.len() > 0 && w.last() == '.' {
                    Some(w.drop_last())
                } else {
                    Some(w)
                }
            },
        },
    }
}

fn is_whitespace(c: char) -> (r: bool)
    ensures
        r == is_ws(c),
{
    let u = c as u32;
    (9 <= u && u <= 13) || u == 32 || u == 0x85 || u == 0xa0 || u == 0x1680 || (0x2000 <= u
        && u <= 0x200a) || u == 0x2028 || u == 0x2029 || u == 0x202f || u == 0x205f || u
        == 0x3000
}

/// Parses the version number from the output of `tshark --version`.
pub fn parse_tshark_version(tshark_version_output: &str) -> (r: Option<&str>)
    ensures
        match tshark_version_of(tshark_version_output@) {
            None => r.is_none(),
            Some(v) => r.is_some() && r.unwrap()@ == v,
        },
{
    let s = tshark_version_output;
    let n = s.unicode_len();
    let mut i: usize = 0;
    let mut found = false;
    while !found && n > 0 && i < n - 1
        invariant
            n == s@.len(),
            i <= n,
            !found ==> find_paren_space(s@, 0) == find_paren_space(s@, i as int),
            found ==> find_paren_space(s@, 0) == Some(i as int) && i + 1 < n,
        decreases n - i, (if found { 0int } else { 1int }),
    {
        if s.get_char(i) == ')' && s.get_char(i + 1) == ' ' {
            found = true;
        } else {
            i = i + 1;
        }
    }
    if !found {
        return None;
    }
    let start = i + 2;
    let mut j: usize = start;
    let mut found_ws = false;
    while !found_ws && j < n
        invariant
            n == s@.len(),
            start <= j <= n,
            !found_ws ==> find_ws(s@, start as int) == find_ws(s@, j as int),
            found_ws ==> find_ws(s@, start as int) == Some(j as int) && j < n,
        decreases n - j, (if found_ws { 0int } else { 1int }),
    {
        if is_whitespace(s.get_char(j)) {
            found_ws = true;
        } else {
            j = j + 1;
        }
    }
    if !found_ws {
        return None;
    }
    if j > start && s.get_char(j - 1) == '.' {
        Some(s.substring_char(start, j - 1))
    } else {
        Some(s.substring_char(start, j))
    }
}

/// Why the output of `tshark --version` gave no usable version.
#[derive(Debug, Clone, Copy, PartialEq, Eq)]
pub enum VersionError {
    /// No version could be found in the output.
    ParseTsharkVersion,
    /// The version found is not a semantic version.
    InvalidSemver,
}

/// A semantic version as `(major, minor, patch, has_prerelease)`.
pub uninterp spec fn semver_of(s: Seq<char>) -> Option<(u64, u64, u64, bool)>;

/// Relies on semver::Version::parse: the numeric triple and whether a
/// pre-release part is present, or nothing when the text is no semantic version.
#[verifier::external_body]
fn parse_semver(s: &str) -> (r: Option<(u64, u64, u64, bool)>)
    ensures
        r == semver_of(s@),
{
    match semver::Version::parse(s) {
        Ok(v) => Some((v.major, v.minor, v.patch, !v.pre.is_empty())),
        Err(_) => None,
    }
}

/// The oldest tshark release that gives every field the fingerprints read.
pub const MIN_MAJOR: u64 = 4;
pub const MIN_MINOR: u64 = 0;
pub const MIN_PATCH: u64 = 6;

/// Whether a version meets the requirement `>=4.0.6`; a pre-release never does.
pub open spec fn meets_minimum_spec(major: u64, minor: u64, patch: u64, pre: bool) -> bool {
    !pre && (major > MIN_MAJOR || (major == MIN_MAJOR && (minor > MIN_MINOR || (minor
        == MIN_MINOR && patch >= MIN_PATCH))))
}

/// Whether a parsed version meets the requirement `>=4.0.6`.
pub fn meets_tshark_minimum(major: u64, minor: u64, patch: u64, pre: bool) -> (r: bool)
    ensures
        r == meets_minimum_spec(major, minor, patch, pre),
{
    !pre && (major > MIN_MAJOR || (major == MIN_MAJOR && (minor > MIN_MINOR || (minor
        == MIN_MINOR && patch >= MIN_PATCH))))
}

/// Reads the output of `tshark --version`: `Ok(true)` when the version meets the
/// requirement, `Ok(false)` when it is older, an error when there is none.
pub fn assess_tshark_version(out: &str) -> (r: Result<bool, VersionError>)
    ensures
        tshark_version_of(out@) is None <==> r == Err::<bool, VersionError>(
            VersionError::ParseTsharkVersion,
        ),
        tshark_version_of(out@) is Some ==> match semver_of(tshark_version_of(out@).unwrap()) {
            None => r == Err::<bool, VersionError>(VersionError::InvalidSemver),
            Some(v) => r == Ok::<bool, VersionError>(meets_minimum_spec(v.0, v.1, v.2, v.3)),
        },
{
    match parse_tshark_version(out) {
        None => Err(VersionError::ParseTsharkVersion),
        Some(ver) => match parse_semver(ver) {
            None => Err(VersionError::InvalidSemver),
            Some((major, minor, patch, pre)) => Ok(meets_tshark_minimum(major, minor, patch, pre)),
        },
    }
}

} // verus!
