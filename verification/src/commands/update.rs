//! `scwx update`: versions, release assets and checking a downloaded binary.

use vstd::prelude::*;

use sha2::Digest;

use crate::text::{
    ascii_lower, ascii_lower_seq, concat, decimal_digits, is_digit, lemma_decimal_digits,
    lemma_parse_decimal_digits, lemma_split_once_concat, lines, lines_seq, parse_unsigned,
    parse_unsigned_exec, split_once, split_once_seq, str_eq, trim_start_char,
    trim_start_matches_char, views, words, words_seq,
};

verus! {

/// The three dot-separated parts of a version after any leading `v`s; the
/// last part is all that follows the second dot.
pub open spec fn version_parts(v: Seq<char>) -> Option<(Seq<char>, Seq<char>, Seq<char>)> {
    match split_once_seq(trim_start_char(v, 'v'), '.') {
        Some((a, rest)) => match split_once_seq(rest, '.') {
            Some((b, c)) => Some((a, b, c)),
            None => None,
        },
        None => None,
    }
}

/// The version numbers, when each part is a `u64`.
pub open spec fn version_spec(v: Seq<char>) -> Option<Seq<nat>> {
    match version_parts(v) {
        Some((a, b, c)) => match (
            parse_unsigned(a, u64::MAX as nat),
            parse_unsigned(b, u64::MAX as nat),
            parse_unsigned(c, u64::MAX as nat),
        ) {
            (Some(x), Some(y), Some(z)) => Some(seq![x, y, z]),
            _ => None,
        },
        None => None,
    }
}

/// `major.minor.patch`, with an optional leading `v`.
pub fn parse_version(version: &str) -> (r: Option<[u64; 3]>)
    ensures
        match version_spec(version@) {
            Some(s) => r matches Some(a) && a@.map_values(|x: u64| x as nat) == s,
            None => r is None,
        },
{
    let trimmed = trim_start_matches_char(version, 'v');
    let (a, rest) = match split_once(trimmed.as_str(), '.') {
        Some(p) => p,
        None => return None,
    };
    let (b, c) = match split_once(rest.as_str(), '.') {
        Some(p) => p,
        None => return None,
    };
    let major = match parse_unsigned_exec(a.as_str(), u64::MAX) {
        Some(x) => x,
        None => return None,
    };
    let minor = match parse_unsigned_exec(b.as_str(), u64::MAX) {
        Some(x) => x,
        None => return None,
    };
    let patch = match parse_unsigned_exec(c.as_str(), u64::MAX) {
        Some(x) => x,
        None => return None,
    };
    let r = [major, minor, patch];
    assert(r@.map_values(|x: u64| x as nat) =~= seq![major as nat, minor as nat, patch as nat]);
    Some(r)
}

/// `a < b` comparing part by part, as arrays compare.
pub open spec fn version_lt(a: Seq<u64>, b: Seq<u64>) -> bool {
    a[0] < b[0] || (a[0] == b[0] && (a[1] < b[1] || (a[1] == b[1] && a[2] < b[2])))
}

/// Versions compare as `[major, minor, patch]` arrays do: the major part
/// decides, then the minor part, then the patch; a smaller part is older.
pub proof fn lemma_versions_compare_part_by_part(a: Seq<u64>, b: Seq<u64>)
    requires
        a.len() == 3,
        b.len() == 3,
    ensures
        a[0] < b[0] ==> version_lt(a, b),
        a[0] > b[0] ==> !version_lt(a, b),
        a[0] == b[0] && a[1] < b[1] ==> version_lt(a, b),
        a[0] == b[0] && a[1] > b[1] ==> !version_lt(a, b),
        a[0] == b[0] && a[1] == b[1] ==> (version_lt(a, b) <==> a[2] < b[2]),
{
}

/// Release versions are totally ordered: two versions are equal, or exactly
/// one is older; so an update is never a downgrade, and a release is refused
/// exactly when it is older than the installed one.
pub proof fn lemma_version_order(a: Seq<u64>, b: Seq<u64>)
    requires
        a.len() == 3,
        b.len() == 3,
    ensures
        !version_lt(a, a),
        version_lt(a, b) ==> !version_lt(b, a),
        a == b || version_lt(a, b) || version_lt(b, a),
{
    if !(version_lt(a, b) || version_lt(b, a)) {
        assert(a =~= b);
    }
}

/// The text of a version.
pub open spec fn version_text(v: Seq<nat>) -> Seq<char> {
    decimal_digits(v[0]) + "."@ + decimal_digits(v[1]) + "."@ + decimal_digits(v[2])
}

/// A version written `major.minor.patch`, with or without a leading `v`,
/// reads back as that version.
pub proof fn lemma_version_text_reads_back(v: Seq<nat>)
    requires
        v.len() == 3,
        v[0] <= u64::MAX,
        v[1] <= u64::MAX,
        v[2] <= u64::MAX,
    ensures
        version_spec(version_text(v)) == Some(v),
        version_spec("v"@ + version_text(v)) == Some(v),
{
    reveal_strlit(".");
    reveal_strlit("v");
    let (a, b, c) = (decimal_digits(v[0]), decimal_digits(v[1]), decimal_digits(v[2]));
    lemma_decimal_digits(v[0]);
    lemma_decimal_digits(v[1]);
    lemma_decimal_digits(v[2]);
    let s = version_text(v);
    assert forall|j: int| 0 <= j < a.len() implies a[j] != '.' by {
        assert(is_digit(a[j]));
    }
    assert forall|j: int| 0 <= j < b.len() implies b[j] != '.' by {
        assert(is_digit(b[j]));
    }
    let rest = b + "."@ + c;
    assert(s =~= a + seq!['.'] + rest);
    assert(rest =~= b + seq!['.'] + c);
    lemma_split_once_concat(a, '.', rest);
    lemma_split_once_concat(b, '.', c);
    assert(is_digit(s[0]));
    assert(trim_start_char(s, 'v') == s);
    let w = "v"@ + s;
    assert(w.subrange(1, w.len() as int) =~= s);
    assert(trim_start_char(w, 'v') == trim_start_char(s, 'v'));
    lemma_parse_decimal_digits(v[0], u64::MAX as nat);
    lemma_parse_decimal_digits(v[1], u64::MAX as nat);
    lemma_parse_decimal_digits(v[2], u64::MAX as nat);
    assert(seq![v[0], v[1], v[2]] =~= v);
}

/// What an update does, given the installed and the latest version.
#[derive(Debug, Clone, Copy, PartialEq, Eq, Structural)]
pub enum UpdateDecision {
    UpToDate,
    Upgrade,
    /// The latest release is older: no downgrade.
    Refuse,
}

pub fn decide_update(current: [u64; 3], latest: [u64; 3]) -> (r: UpdateDecision)
    ensures
        current[0] < latest[0] ==> r == UpdateDecision::Upgrade,
        current[0] > latest[0] ==> r == UpdateDecision::Refuse,
        current[0] == latest[0] && current[1] < latest[1] ==> r == UpdateDecision::Upgrade,
        current[0] == latest[0] && current[1] > latest[1] ==> r == UpdateDecision::Refuse,
        current[0] == latest[0] && current[1] == latest[1] && current[2] < latest[2] ==> r
            == UpdateDecision::Upgrade,
        current[0] == latest[0] && current[1] == latest[1] && current[2] > latest[2] ==> r
            == UpdateDecision::Refuse,
        current[0] == latest[0] && current[1] == latest[1] && current[2] == latest[2] ==> r
            == UpdateDecision::UpToDate,
        r == (if latest@ == current@ {
            UpdateDecision::UpToDate
        } else if version_lt(current@, latest@) {
            UpdateDecision::Upgrade
        } else {
            UpdateDecision::Refuse
        }),
{
    proof {
        lemma_versions_compare_part_by_part(current@, latest@);
        lemma_versions_compare_part_by_part(latest@, current@);
        if current@ == latest@ {
            assert(current[0] == latest[0] && current[1] == latest[1] && current[2] == latest[2]);
        }
    }
    if latest[0] == current[0] && latest[1] == current[1] && latest[2] == current[2] {
        assert(latest@ =~= current@);
        UpdateDecision::UpToDate
    } else if current[0] < latest[0] || (current[0] == latest[0] && (current[1] < latest[1] || (
    current[1] == latest[1] && current[2] < latest[2]))) {
        UpdateDecision::Upgrade
    } else {
        UpdateDecision::Refuse
    }
}

/// The hash a checksum line gives for `asset`: the first word, lowercased,
/// when the second word (without leading `*`s) is the asset's name.
pub open spec fn checksum_entry(line: Seq<char>, asset: Seq<char>) -> Option<Seq<char>> {
    let w = words_seq(line);
    if w.len() >= 2 && trim_start_char(w[1], '*') == asset {
        Some(ascii_lower_seq(w[0]))
    } else {
        None
    }
}

/// The first entry for `asset` among the lines.
pub open spec fn first_entry(ls: Seq<Seq<char>>, asset: Seq<char>) -> Option<Seq<char>>
    decreases ls.len(),
{
    if ls.len() == 0 {
        None
    } else {
        match checksum_entry(ls[0], asset) {
            Some(h) => Some(h),
            None => first_entry(ls.subrange(1, ls.len() as int), asset),
        }
    }
}

/// The checksum file has no line for the asset.
#[derive(Debug)]
pub struct MissingChecksum {
    pub asset: String,
}

impl MissingChecksum {
    pub fn message(&self) -> (r: String)
        ensures
            r@ == "checksum file has no entry for "@ + self.asset@,
    {
        concat("checksum file has no entry for ", self.asset.as_str())
    }
}

/// The expected SHA-256 of `asset_name` in a `sha256sum`-style file.
pub fn expected_sha256(checksum_file: &str, asset_name: &str) -> (r: Result<String, MissingChecksum>)
    ensures
        match first_entry(lines_seq(checksum_file@), asset_name@) {
            Some(h) => r matches Ok(x) && x@ == h,
            None => r matches Err(e) && e.asset@ == asset_name@,
        },
{
    let ls = lines(checksum_file);
    let ghost all = views(ls@);
    let mut i: usize = 0;
    assert(all.subrange(0, all.len() as int) =~= all);
    while i < ls.len()
        invariant
            i <= ls@.len(),
            all == views(ls@),
            all == lines_seq(checksum_file@),
            first_entry(all, asset_name@) == first_entry(
                all.subrange(i as int, all.len() as int),
                asset_name@,
            ),
        decreases ls@.len() - i,
    {
        let ghost rest = all.subrange(i as int, all.len() as int);
        assert(rest[0] == ls@[i as int]@);
        let w = words(ls[i].as_str());
        if w.len() >= 2 {
            assert(views(w@)[1] == w@[1]@ && views(w@)[0] == w@[0]@);
            let name = trim_start_matches_char(w[1].as_str(), '*');
            if str_eq(name.as_str(), asset_name) {
                return Ok(ascii_lower(w[0].as_str()));
            }
        }
        assert(rest.subrange(1, rest.len() as int) =~= all.subrange(i + 1, all.len() as int));
        i = i + 1;
    }
    Err(MissingChecksum { asset: String::from_str(asset_name) })
}

/// The SHA-256 digest of the bytes.
pub uninterp spec fn sha256_of(data: Seq<u8>) -> Seq<u8>;

/// `sha2::Sha256::digest`: the 32-byte SHA-256 digest, a function of the
/// bytes alone; the hash function itself is not stated here.
#[verifier::external_body]
fn sha256(data: &[u8]) -> (r: Vec<u8>)
    ensures
        r@ == sha256_of(data@),
        r@.len() == 32,
{
    sha2::Sha256::digest(data).to_vec()
}

/// The lowercase hexadecimal digit of `d < 16`.
pub open spec fn hex_digit(d: nat) -> char {
    if d < 10 {
        ((d + 48) as u32) as char
    } else {
        ((d + 87) as u32) as char
    }
}

/// Each byte as two lowercase hexadecimal digits (`{:02x}`).
pub open spec fn hex_lower(bytes: Seq<u8>) -> Seq<char>
    decreases bytes.len(),
{
    if bytes.len() == 0 {
        Seq::<char>::empty()
    } else {
        hex_lower(bytes.drop_last()) + seq![
            hex_digit((bytes.last() / 16) as nat),
            hex_digit((bytes.last() % 16) as nat),
        ]
    }
}

fn hex_digit_exec(d: u8) -> (r: char)
    requires
        d < 16,
    ensures
        r == hex_digit(d as nat),
{
    if d < 10 {
        (d + 48) as char
    } else {
        (d + 87) as char
    }
}

/// Lowercase hexadecimal, two digits per byte.
pub fn hex(bytes: &[u8]) -> (r: String)
    ensures
        r@ == hex_lower(bytes@),
{
    let mut out: Vec<char> = Vec::new();
    let mut i: usize = 0;
    while i < bytes.len()
        invariant
            i <= bytes@.len(),
            out@ == hex_lower(bytes@.subrange(0, i as int)),
        decreases bytes@.len() - i,
    {
        let b = bytes[i];
        let ghost pre = bytes@.subrange(0, i + 1);
        assert(pre.drop_last() =~= bytes@.subrange(0, i as int));
        out.push(hex_digit_exec(b / 16));
        out.push(hex_digit_exec(b % 16));
        assert(out@ =~= hex_lower(pre));
        i = i + 1;
    }
    assert(bytes@.subrange(0, i as int) =~= bytes@);
    crate::text::string_of(out.as_slice())
}

/// The file starts like an executable: ELF, 64-bit Mach-O, or a universal
/// Mach-O.
pub open spec fn looks_executable(b: Seq<u8>) -> bool {
    (b.len() >= 4 && b[0] == 0x7f && b[1] == 0x45 && b[2] == 0x4c && b[3] == 0x46) || (b.len() >= 4
        && b[0] == 0xcf && b[1] == 0xfa && b[2] == 0xed && b[3] == 0xfe) || (b.len() >= 4 && b[0]
        == 0xca && b[1] == 0xfe && b[2] == 0xba && b[3] == 0xbe)
}

/// Why a downloaded binary is refused.
#[derive(Debug)]
pub enum VerifyError {
    NotExecutable,
    ChecksumMismatch { expected: String, actual: String },
}

impl VerifyError {
    pub fn message(&self) -> (r: String)
        ensures
            r@ == match self {
                VerifyError::NotExecutable => "downloaded file is not an executable (served an error page?)"@,
                VerifyError::ChecksumMismatch { expected, actual } => "checksum mismatch: expected "@
                    + expected@ + ", got "@ + actual@,
            },
    {
        match self {
            VerifyError::NotExecutable => String::from_str(
                "downloaded file is not an executable (served an error page?)",
            ),
            VerifyError::ChecksumMismatch { expected, actual } => {
                let a = concat("checksum mismatch: expected ", expected.as_str());
                let b = concat(a.as_str(), ", got ");
                concat(b.as_str(), actual.as_str())
            },
        }
    }
}

/// Accepts the binary when it looks executable and its SHA-256, in
/// lowercase hex, is the expected one.
pub fn verify_binary(binary: &[u8], expected_sha256: &str) -> (r: Result<(), VerifyError>)
    ensures
        !looks_executable(binary@) ==> r matches Err(VerifyError::NotExecutable),
        looks_executable(binary@) ==> match r {
            Ok(()) => hex_lower(sha256_of(binary@)) == expected_sha256@,
            Err(VerifyError::ChecksumMismatch { expected, actual }) => expected@
                == expected_sha256@ && actual@ == hex_lower(sha256_of(binary@)) && actual@
                != expected_sha256@,
            Err(VerifyError::NotExecutable) => false,
        },
{
    let n = binary.len();
    let is_executable = (n >= 4 && binary[0] == 0x7f && binary[1] == 0x45 && binary[2] == 0x4c
        && binary[3] == 0x46) || (n >= 4 && binary[0] == 0xcf && binary[1] == 0xfa && binary[2]
        == 0xed && binary[3] == 0xfe) || (n >= 4 && binary[0] == 0xca && binary[1] == 0xfe
        && binary[2] == 0xba && binary[3] == 0xbe);
    if !is_executable {
        return Err(VerifyError::NotExecutable);
    }
    let digest = sha256(binary);
    let actual = hex(digest.as_slice());
    if str_eq(actual.as_str(), expected_sha256) {
        Ok(())
    } else {
        Err(VerifyError::ChecksumMismatch { expected: String::from_str(expected_sha256), actual })
    }
}

/// The release asset of a target: `scwx-<target>`.
pub fn asset_name(target: &str) -> (r: String)
    ensures
        r@ == "scwx-"@ + target@,
{
    concat("scwx-", target)
}

/// The checksum file published beside an asset.
pub fn checksum_asset_name(asset: &str) -> (r: String)
    ensures
        r@ == asset@ + ".sha256"@,
{
    concat(asset, ".sha256")
}

/// The first asset with the name.
pub open spec fn first_named(names: Seq<Seq<char>>, name: Seq<char>) -> Option<int>
    decreases names.len(),
{
    if names.len() == 0 {
        None
    } else if names[0] == name {
        Some(0)
    } else {
        match first_named(names.subrange(1, names.len() as int), name) {
            Some(i) => Some(i + 1),
            None => None,
        }
    }
}

/// The position of the first asset with the name.
pub fn find_asset(names: &Vec<String>, name: &str) -> (r: Option<usize>)
    ensures
        match first_named(views(names@), name@) {
            Some(i) => r == Some(i as usize),
            None => r is None,
        },
{
    let ghost all = views(names@);
    let mut i: usize = 0;
    assert(all.subrange(0, all.len() as int) =~= all);
    while i < names.len()
        invariant
            i <= names@.len(),
            all == views(names@),
            first_named(all, name@) == match first_named(all.subrange(i as int, all.len() as int), name@) {
                Some(j) => Some(j + i),
                None => None,
            },
        decreases names@.len() - i,
    {
        let ghost rest = all.subrange(i as int, all.len() as int);
        assert(rest[0] == names@[i as int]@);
        if str_eq(names[i].as_str(), name) {
            return Some(i);
        }
        assert(rest.subrange(1, rest.len() as int) =~= all.subrange(i + 1, all.len() as int));
        i = i + 1;
    }
    None
}

/// The operating system has no release build.
#[derive(Debug)]
pub struct UnsupportedOs {
    pub os: String,
}

impl UnsupportedOs {
    pub fn message(&self) -> (r: String)
        ensures
            r@ == "unsupported os: "@ + self.os@,
    {
        concat("unsupported os: ", self.os.as_str())
    }
}

/// The release target of an architecture and operating system.
pub fn target_triple(os: &str, arch: &str) -> (r: Result<String, UnsupportedOs>)
    ensures
        os@ == "macos"@ ==> (r matches Ok(t) && t@ == arch@ + "-apple-darwin"@),
        os@ == "linux"@ ==> (r matches Ok(t) && t@ == arch@ + "-unknown-linux-gnu"@),
        os@ != "macos"@ && os@ != "linux"@ ==> (r matches Err(e) && e.os@ == os@),
{
    proof {
        reveal_strlit("-");
        reveal_strlit("apple-darwin");
        reveal_strlit("-apple-darwin");
        reveal_strlit("unknown-linux-gnu");
        reveal_strlit("-unknown-linux-gnu");
        reveal_strlit("macos");
        reveal_strlit("linux");
        assert("linux"@[0] != "macos"@[0]);
    }
    let suffix = if str_eq(os, "macos") {
        "apple-darwin"
    } else if str_eq(os, "linux") {
        "unknown-linux-gnu"
    } else {
        return Err(UnsupportedOs { os: String::from_str(os) });
    };
    let a = concat(arch, "-");
    let t = concat(a.as_str(), suffix);
    assert(os@ == "macos"@ ==> t@ =~= arch@ + "-apple-darwin"@);
    assert(os@ == "linux"@ ==> t@ =~= arch@ + "-unknown-linux-gnu"@);
    Ok(t)
}

} // verus!
