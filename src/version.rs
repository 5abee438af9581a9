//! Semantic versions, as plain values.
use vstd::prelude::*;

verus! {

/// A semantic version: `major.minor.patch`, with optional pre-release and
/// build identifiers (empty when absent).
#[derive(Debug, Clone)]
pub struct Version {
    pub major: u64,
    pub minor: u64,
    pub patch: u64,
    pub pre: String,
    pub build: String,
}

/// The decimal digits of `n`, without leading zeros.
pub open spec fn decimal(n: nat) -> Seq<char>
    decreases n,
{
    if n < 10 {
        seq![digit_char(n)]
    } else {
        decimal(n / 10).push(digit_char(n % 10))
    }
}

pub open spec fn digit_char(d: nat) -> char {
    if d == 0 { '0' } else if d == 1 { '1' } else if d == 2 { '2' } else if d == 3 { '3' }
    else if d == 4 { '4' } else if d == 5 { '5' } else if d == 6 { '6' } else if d == 7 { '7' }
    else if d == 8 { '8' } else { '9' }
}

/// Text made of the characters of pre-release and build identifiers: ASCII
/// letters and digits, `-`, and the `.` between identifiers.
pub open spec fn ident_text(s: Seq<char>) -> bool {
    forall|i: int|
        0 <= i < s.len() ==> ('0' <= #[trigger] s[i] <= '9') || ('a' <= s[i] <= 'z') || ('A' <= s[i] <= 'Z')
            || s[i] == '-' || s[i] == '.'
}

/// What a version parses to, where the text is a semantic version.
pub uninterp spec fn parsed_version(s: Seq<char>) -> Option<Version>;

impl Version {
    /// The pre-release and build identifiers are made of the characters semver allows.
    pub open spec fn wf(&self) -> bool {
        ident_text(self.pre@) && ident_text(self.build@)
    }

    /// The canonical text of the version: `1.2.3`, `1.2.3-rc.1`, `1.2.3+b5`.
    pub open spec fn text(&self) -> Seq<char> {
        let core = decimal(self.major as nat) + seq!['.'] + decimal(self.minor as nat) + seq!['.']
            + decimal(self.patch as nat);
        let with_pre = if self.pre@.len() == 0 {
            core
        } else {
            core + seq!['-'] + self.pre@
        };
        if self.build@.len() == 0 {
            with_pre
        } else {
            with_pre + seq!['+'] + self.build@
        }
    }

    /// Parses a semantic version; `None` where the text is not one.
    pub fn parse(s: &str) -> (r: Option<Version>)
        ensures
            r == parsed_version(s@),
            r matches Some(v) ==> v.wf(),
    {
        parse_semver(s)
    }

    /// The canonical text of the version.
    pub fn to_text(&self) -> (r: String)
        ensures
            r@ == self.text(),
    {
        proof {
            reveal_strlit(".");
            reveal_strlit("-");
            reveal_strlit("+");
        }
        let mut r = u64_text(self.major);
        r.append(".");
        let minor = u64_text(self.minor);
        r.append(minor.as_str());
        r.append(".");
        let patch = u64_text(self.patch);
        r.append(patch.as_str());
        if !self.pre.as_str().is_empty() {
            r.append("-");
            r.append(self.pre.as_str());
        }
        if !self.build.as_str().is_empty() {
            r.append("+");
            r.append(self.build.as_str());
        }
        r
    }
}

/// Relies on `semver::Version::parse`, the fields of the version it returns
/// carried over one for one; its identifiers hold only ASCII letters, digits,
/// `-` and `.`.
#[verifier::external_body]
fn parse_semver(s: &str) -> (r: Option<Version>)
    ensures
        r == parsed_version(s@),
        r matches Some(v) ==> v.wf(),
{
    semver::Version::parse(s).ok().map(
        |v| Version {
            major: v.major,
            minor: v.minor,
            patch: v.patch,
            pre: v.pre.as_str().to_string(),
            build: v.build.as_str().to_string(),
        },
    )
}

/// The one-character text of the digit `d`.
fn digit_text(d: u64) -> (r: &'static str)
    requires
        d < 10,
    ensures
        r@ == seq![digit_char(d as nat)],
{
    proof {
        reveal_strlit("0");
        reveal_strlit("1");
        reveal_strlit("2");
        reveal_strlit("3");
        reveal_strlit("4");
        reveal_strlit("5");
        reveal_strlit("6");
        reveal_strlit("7");
        reveal_strlit("8");
        reveal_strlit("9");
    }
    if d == 0 {
        "0"
    } else if d == 1 {
        "1"
    } else if d == 2 {
        "2"
    } else if d == 3 {
        "3"
    } else if d == 4 {
        "4"
    } else if d == 5 {
        "5"
    } else if d == 6 {
        "6"
    } else if d == 7 {
        "7"
    } else if d == 8 {
        "8"
    } else {
        "9"
    }
}

/// The decimal digits of `n`, without leading zeros.
fn u64_text(n: u64) -> (r: String)
    ensures
        r@ == decimal(n as nat),
    decreases n,
{
    if n < 10 {
        digit_text(n).to_owned()
    } else {
        let mut r = u64_text(n / 10);
        r.append(digit_text(n % 10));
        r
    }
}

} // verus!
