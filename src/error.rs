//! The ways a scrape can fail, and how a fetched response is classified.
use vstd::prelude::*;

use crate::text::{chars_of, contains, contains_spec, string_of};

verus! {

/// The origin site put a bot challenge in front of the page; `url` is the challenge page.
#[derive(Clone, Debug)]
pub enum CaptchaPayload {
    Captcha { url: String },
}

/// A failure to reach the origin site, or a page that cannot be interpreted.
#[derive(Clone, Debug)]
pub enum ErrorPayload {
    Error { reason: String },
}

#[derive(Clone, Debug)]
pub enum ScrapeError {
    Captcha(CaptchaPayload),
    Error(ErrorPayload),
}

pub type ScrapeResult<T> = Result<T, ScrapeError>;

/// The reason that an error carries, or `None` for a challenge.
pub open spec fn error_reason(e: ScrapeError) -> Option<Seq<char>> {
    match e {
        ScrapeError::Error(ErrorPayload::Error { reason }) => Some(reason@),
        ScrapeError::Captcha(_) => None,
    }
}

/// The challenge page that an error points to, or `None` for another error.
pub open spec fn captcha_url(e: ScrapeError) -> Option<Seq<char>> {
    match e {
        ScrapeError::Captcha(CaptchaPayload::Captcha { url }) => Some(url@),
        ScrapeError::Error(_) => None,
    }
}

impl ScrapeError {
    /// An error with the given reason.
    pub fn from_str(reason: &str) -> (r: ScrapeError)
        ensures
            error_reason(r) == Some(reason@),
    {
        ScrapeError::Error(ErrorPayload::Error { reason: reason.to_owned() })
    }

    /// The text that a caller shows for the error: the reason, or the challenge page.
    pub fn message(&self) -> (r: String)
        ensures
            match error_reason(*self) {
                Some(reason) => r@ == reason,
                None => Some(r@) == captcha_url(*self),
            },
    {
        match self {
            ScrapeError::Captcha(CaptchaPayload::Captcha { url }) => url.clone(),
            ScrapeError::Error(ErrorPayload::Error { reason }) => reason.clone(),
        }
    }
}

/// The host that serves the origin site's bot challenge.
pub open spec fn challenge_host() -> Seq<char> {
    "validate.perfdrive.com"@
}

/// Classifies a response by the address it finally came from: one from the challenge host is
/// a `Captcha` error pointing there; any other is the page itself.
pub fn check_final_url(url: &str) -> (r: Result<(), ScrapeError>)
    ensures
        contains_spec(url@, challenge_host()) ==> (r matches Err(e) && captcha_url(e) == Some(url@)),
        !contains_spec(url@, challenge_host()) ==> r is Ok,
{
    let host = chars_of("validate.perfdrive.com");
    if contains(&chars_of(url), &host) {
        Err(ScrapeError::Captcha(CaptchaPayload::Captcha { url: url.to_owned() }))
    } else {
        Ok(())
    }
}

pub open spec fn digit_char_spec(d: nat) -> char {
    if d == 0 {
        '0'
    } else if d == 1 {
        '1'
    } else if d == 2 {
        '2'
    } else if d == 3 {
        '3'
    } else if d == 4 {
        '4'
    } else if d == 5 {
        '5'
    } else if d == 6 {
        '6'
    } else if d == 7 {
        '7'
    } else if d == 8 {
        '8'
    } else {
        '9'
    }
}

/// `n` written in decimal, without leading zeros.
pub open spec fn decimal_spec(n: nat) -> Seq<char>
    decreases n,
{
    if n < 10 {
        seq![digit_char_spec(n)]
    } else {
        decimal_spec(n / 10).push(digit_char_spec(n % 10))
    }
}

fn digit_char(d: u64) -> (r: char)
    ensures
        r == digit_char_spec(d as nat),
{
    if d == 0 {
        '0'
    } else if d == 1 {
        '1'
    } else if d == 2 {
        '2'
    } else if d == 3 {
        '3'
    } else if d == 4 {
        '4'
    } else if d == 5 {
        '5'
    } else if d == 6 {
        '6'
    } else if d == 7 {
        '7'
    } else if d == 8 {
        '8'
    } else {
        '9'
    }
}

fn push_decimal(out: &mut Vec<char>, n: u64)
    ensures
        final(out)@ == old(out)@ + decimal_spec(n as nat),
    decreases n,
{
    if n >= 10 {
        push_decimal(out, n / 10);
    }
    out.push(digit_char(n % 10));
    proof {
        if n < 10 {
            assert(n % 10 == n);
        }
    }
    assert(out@ =~= old(out)@ + decimal_spec(n as nat));
}

fn push_str(out: &mut Vec<char>, s: &str)
    ensures
        final(out)@ == old(out)@ + s@,
{
    let cs = chars_of(s);
    let mut i: usize = 0;
    let ghost base = out@;
    while i < cs.len()
        invariant
            i <= cs@.len(),
            cs@ == s@,
            out@ == base + cs@.subrange(0, i as int),
        decreases cs@.len() - i,
    {
        out.push(cs[i]);
        i = i + 1;
        assert(out@ =~= base + cs@.subrange(0, i as int));
    }
    assert(cs@.subrange(0, cs@.len() as int) =~= cs@);
}

/// The reason given for a failed fetch: what was being loaded, the HTTP status where there
/// was one, and the transport's own account of the failure.
pub open spec fn transport_reason(context: Seq<char>, status: Option<u16>, detail: Seq<char>) -> Seq<
    char,
> {
    match status {
        Some(code) => context + ":\n  status: "@ + decimal_spec(code as nat) + "\n  error: "@
            + detail,
        None => context + ":\n  error: "@ + detail,
    }
}

/// The error for a fetch that failed on its way to or from the origin site.
pub fn transport_error(context: &str, status: Option<u16>, detail: &str) -> (r: ScrapeError)
    ensures
        error_reason(r) == Some(transport_reason(context@, status, detail@)),
{
    let mut out: Vec<char> = Vec::new();
    push_str(&mut out, context);
    match status {
        Some(code) => {
            push_str(&mut out, ":\n  status: ");
            push_decimal(&mut out, code as u64);
            push_str(&mut out, "\n  error: ");
        },
        None => {
            push_str(&mut out, ":\n  error: ");
        },
    }
    push_str(&mut out, detail);
    assert(out@ =~= transport_reason(context@, status, detail@));
    ScrapeError::Error(ErrorPayload::Error { reason: string_of(&out) })
}

} // verus!
