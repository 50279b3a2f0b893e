//! What the sandbox's answers mean: the outcome of a status code, the active
//! code version read from its `.version` file, and the addresses of remote
//! paths. The requests themselves are made by the caller.
use vstd::prelude::*;

use crate::text::chars_of;
use crate::time::digits;

verus! {

/// The outcome of a request: `Ok(code)` on success, `Err(code)` on a known
/// refusal, with a message for people.
#[derive(Debug)]
pub struct Status {
    pub status: Result<u16, u16>,
    pub message: String,
}

impl Status {
    pub fn success(status_code: u16, message: &str) -> (r: Self)
        ensures
            r.status == Ok::<u16, u16>(status_code),
            r.message@ == message@,
    {
        Status { status: Ok(status_code), message: message.to_owned() }
    }

    pub fn error(status_code: u16, message: &str) -> (r: Self)
        ensures
            r.status == Err::<u16, u16>(status_code),
            r.message@ == message@,
    {
        Status { status: Err(status_code), message: message.to_owned() }
    }
}

/// The outcome of status code `code` for a request doing `what`: a status
/// and its message for the codes the sandbox is known to answer, else the
/// failure report built from the request's url, status line and address.
pub open spec fn response_outcome(
    code: u16,
    what: Seq<char>,
    url: Seq<char>,
    status_line: Seq<char>,
    address: Seq<char>,
) -> Result<(Result<u16, u16>, Seq<char>), Seq<char>> {
    if code == 200 || code == 201 || code == 204 {
        Ok((Ok(code), "success"@))
    } else if code == 401 {
        Ok((Err(code), "Unauthorized call! "@ + what))
    } else if code == 403 {
        Ok((Err(code), "Forbidden!, You don't have permission to "@ + what + " !"@))
    } else if code == 404 {
        Ok((Err(code), "Resource no longer exist"@))
    } else if code == 409 {
        Ok(
            (
                Err(code),
                "Conflict, A collection cannot be made at the Request-URI until one or more intermediate collections have been created."@,
            ),
        )
    } else if code == 502 {
        Ok((Err(code), "Bad Gateway, Server refuses to accept the resource."@))
    } else if code == 507 {
        Ok(
            (
                Err(code),
                "Insufficient Storage, The destination resource does not have sufficient space to record the state of the resource after the execution of this method."@,
            ),
        )
    } else {
        Err(
            "Request failed\nUrl: "@ + url + "\nStatus: "@ + status_line + "\nAddress: "@ + address,
        )
    }
}

/// Reads the status code of a response to a request doing `message`; see
/// `response_outcome`.
pub fn parse_response_status(
    status_code: u16,
    message: &str,
    url: &str,
    status_line: &str,
    address: &str,
) -> (r: Result<Status, String>)
    ensures
        match response_outcome(status_code, message@, url@, status_line@, address@) {
            Ok((st, text)) => (r matches Ok(s) && s.status == st && s.message@ == text),
            Err(text) => (r matches Err(e) && e@ == text),
        },
{
    match status_code {
        200 | 201 | 204 => Ok(Status::success(status_code, "success")),
        401 => {
            let mut text = String::from_str("Unauthorized call! ");
            text.append(message);
            Ok(Status { status: Err(status_code), message: text })
        },
        403 => {
            let mut text = String::from_str("Forbidden!, You don't have permission to ");
            text.append(message);
            text.append(" !");
            Ok(Status { status: Err(status_code), message: text })
        },
        404 => Ok(Status::error(status_code, "Resource no longer exist")),
        409 => Ok(
            Status::error(
                status_code,
                "Conflict, A collection cannot be made at the Request-URI until one or more intermediate collections have been created.",
            ),
        ),
        502 => Ok(Status::error(status_code, "Bad Gateway, Server refuses to accept the resource.")),
        507 => Ok(
            Status::error(
                status_code,
                "Insufficient Storage, The destination resource does not have sufficient space to record the state of the resource after the execution of this method.",
            ),
        ),
        _ => {
            let mut text = String::from_str("Request failed\nUrl: ");
            text.append(url);
            text.append("\nStatus: ");
            text.append(status_line);
            text.append("\nAddress: ");
            text.append(address);
            Err(text)
        },
    }
}

/// The first position at or after `from` where `s` holds `c`, or the length
/// of `s` when there is none.
pub open spec fn next_index(s: Seq<char>, c: char, from: int) -> int
    decreases s.len() - from,
{
    if from < 0 || from >= s.len() {
        s.len() as int
    } else if s[from] == c {
        from
    } else {
        next_index(s, c, from + 1)
    }
}

/// Where line `n` (counted from 0) of `s` starts, lines being separated by
/// `\n`; `None` when `s` has fewer lines.
pub open spec fn line_start(s: Seq<char>, n: nat) -> Option<int>
    decreases n,
{
    if n == 0 {
        Some(0)
    } else {
        match line_start(s, (n - 1) as nat) {
            Some(st) => if next_index(s, '\n', st) < s.len() {
                Some(next_index(s, '\n', st) + 1)
            } else {
                None
            },
            None => None,
        }
    }
}

/// The code version named by a `.version` file: the part of its seventh line
/// before the first `/`; `None` when the file has fewer than seven lines.
pub open spec fn version_in(s: Seq<char>) -> Option<Seq<char>> {
    match line_start(s, 6) {
        Some(st) => {
            let nl = next_index(s, '\n', st);
            let sl = next_index(s, '/', st);
            Some(s.subrange(st, if nl < sl { nl } else { sl }))
        },
        None => None,
    }
}

proof fn lemma_next_index_bounds(s: Seq<char>, c: char, from: int)
    requires
        0 <= from <= s.len(),
    ensures
        from <= next_index(s, c, from) <= s.len(),
        next_index(s, c, from) < s.len() ==> s[next_index(s, c, from)] == c,
        forall|k: int| from <= k < next_index(s, c, from) ==> s[k] != c,
    decreases s.len() - from,
{
    if from < s.len() && s[from] != c {
        lemma_next_index_bounds(s, c, from + 1);
    }
}

/// The first position at or after `from` where `s` holds `c`, or its length.
fn find_from(s: &Vec<char>, c: char, from: usize) -> (r: usize)
    requires
        from <= s.len(),
    ensures
        r == next_index(s@, c, from as int),
{
    let mut i: usize = from;
    while i < s.len() && s[i] != c
        invariant
            from <= i <= s.len(),
            next_index(s@, c, from as int) == next_index(s@, c, i as int),
        decreases s.len() - i,
    {
        i += 1;
    }
    i
}

/// The code version named by the text of a `.version` file.
pub fn active_version(text: &str) -> (r: Option<String>)
    ensures
        r is Some <==> version_in(text@) is Some,
        r matches Some(v) ==> v@ == version_in(text@)->0,
{
    let s = chars_of(text);
    let mut start: usize = 0;
    let mut n: usize = 0;
    while n < 6
        invariant
            s@ == text@,
            n <= 6,
            start <= s.len(),
            line_start(text@, n as nat) == Some(start as int),
        decreases 6 - n,
    {
        let nl = find_from(&s, '\n', start);
        proof {
            lemma_next_index_bounds(text@, '\n', start as int);
        }
        if nl >= s.len() {
            proof {
                lemma_no_later_line(text@, (n + 1) as nat, 6);
            }
            return None;
        }
        start = nl + 1;
        n += 1;
    }
    let nl = find_from(&s, '\n', start);
    let sl = find_from(&s, '/', start);
    proof {
        lemma_next_index_bounds(text@, '\n', start as int);
        lemma_next_index_bounds(text@, '/', start as int);
    }
    let end = if nl < sl {
        nl
    } else {
        sl
    };
    Some(String::from_str(text.substring_char(start, end)))
}

/// A text without line `n` has no later line either.
proof fn lemma_no_later_line(s: Seq<char>, n: nat, m: nat)
    requires
        line_start(s, n) is None,
        n <= m,
    ensures
        line_start(s, m) is None,
    decreases m - n,
{
    if n < m {
        lemma_no_later_line(s, n + 1, m);
    }
}

/// `n` in decimal, without leading zeros.
pub open spec fn decimal(n: nat) -> Seq<char>
    decreases n,
{
    if n < 10 {
        seq![digits()[n as int]]
    } else {
        decimal(n / 10) + seq![digits()[(n % 10) as int]]
    }
}

/// `n` in decimal, without leading zeros.
fn decimal_text(n: u16) -> (r: String)
    ensures
        r@ == decimal(n as nat),
    decreases n,
{
    let all = "0123456789";
    proof {
        reveal_strlit("0123456789");
        assert(all@ =~= digits());
    }
    let last = (n % 10) as usize;
    if n < 10 {
        let r = String::from_str(all.substring_char(last, last + 1));
        assert(r@ =~= decimal(n as nat));
        r
    } else {
        let mut r = decimal_text(n / 10);
        r.append(all.substring_char(last, last + 1));
        assert(r@ =~= decimal(n as nat));
        r
    }
}

/// The report for a refused request for the active code version.
pub open spec fn version_error_text(message: Seq<char>, status_code: u16) -> Seq<char> {
    "Error checking current active version: "@ + message + ", Status: "@ + decimal(
        status_code as nat,
    )
}

/// The report for a refused request for the active code version, from the
/// refusal's message and status code.
pub fn version_error(message: &str, status_code: u16) -> (r: String)
    ensures
        r@ == version_error_text(message@, status_code),
{
    let mut r = String::from_str("Error checking current active version: ");
    r.append(message);
    r.append(", Status: ");
    r.append(decimal_text(status_code).as_str());
    r
}

/// The address of `path` below the sandbox `url`.
pub fn remote_address(url: &str, path: &str) -> (r: String)
    ensures
        r@ == url@ + path@,
{
    let mut r = String::from_str(url);
    r.append(path);
    r
}

/// The address of `path` below code version `version` of the sandbox `url`.
pub fn versioned_address(url: &str, version: &str, path: &str) -> (r: String)
    ensures
        r@ == url@ + seq!['/'] + version@ + path@,
{
    let slash = "/";
    proof {
        reveal_strlit("/");
    }
    let mut r = String::from_str(url);
    r.append(slash);
    r.append(version);
    r.append(path);
    r
}

} // verus!
