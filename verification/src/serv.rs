//! The request by which an owner starts a stopped container again.

use vstd::prelude::*;
use vstd::string::*;
use vstd::utf8::encode_utf8;
use crate::text::{chars_of, has_chars_at};
use crate::wechat::{lowercase_of, to_lowercase};

verus! {

/// Why a request to start a container is turned away.
#[derive(Clone, Copy, Debug, PartialEq, Eq, Structural)]
pub enum StartRefusal {
    /// The request does not come from the messenger's browser.
    NotInMessenger,
    /// The container id is shorter than 12 bytes.
    InvalidContainerId,
}

/// The fewest bytes that a container id in a request may have.
pub const MIN_CONTAINER_ID_LEN: usize = 12;

/// Whether `p` occurs in `s` as a run of neighbouring characters.
pub open spec fn contains_seq(s: Seq<char>, p: Seq<char>) -> bool {
    exists|i: int| 0 <= i && i + p.len() <= s.len() && #[trigger] s.subrange(i, i + p.len()) == p
}

/// What becomes of a request, given the lower-case form of its user
/// agent where it names one, and the container id it asks for. The
/// length of the id is that of its bytes as text.
pub open spec fn start_request_spec(lowercase_agent: Option<Seq<char>>, container_id: Seq<char>)
    -> Result<(), StartRefusal> {
    if lowercase_agent is Some && !contains_seq(lowercase_agent->0, "micromessenger"@) {
        Err(StartRefusal::NotInMessenger)
    } else if encode_utf8(container_id).len() < 12 {
        Err(StartRefusal::InvalidContainerId)
    } else {
        Ok(())
    }
}

/// Whether `p` occurs in `s`.
pub fn contains_chars(s: &Vec<char>, p: &Vec<char>) -> (r: bool)
    ensures
        r == contains_seq(s@, p@),
{
    if p.len() > s.len() {
        assert forall|i: int| 0 <= i && i + p@.len() <= s@.len() implies #[trigger] s@.subrange(
            i,
            i + p@.len(),
        ) != p@ by {}
        return false;
    }
    let last = s.len() - p.len();
    let mut i: usize = 0;
    loop
        invariant
            last == s.len() - p.len(),
            i <= last,
            forall|j: int| 0 <= j < i ==> #[trigger] s@.subrange(j, j + p@.len()) != p@,
        decreases last - i,
    {
        if has_chars_at(s, i, p) {
            return true;
        }
        if i == last {
            return false;
        }
        i += 1;
    }
}

/// Decides on a request from the lower-case form of its user agent and
/// its container id: a request that names a user agent must come from
/// the messenger's browser, and the id must have 12 bytes or more.
pub fn start_request_allowed(lowercase_agent: Option<&str>, container_id: &str) -> (r: Result<
    (),
    StartRefusal,
>)
    ensures
        r == start_request_spec(
            match lowercase_agent {
                Some(a) => Some(a@),
                None => None,
            },
            container_id@,
        ),
{
    match lowercase_agent {
        Some(agent) => {
            let a = chars_of(agent);
            let word = chars_of("micromessenger");
            if !contains_chars(&a, &word) {
                return Err(StartRefusal::NotInMessenger);
            }
        },
        None => {},
    }
    if container_id.as_bytes().len() < MIN_CONTAINER_ID_LEN {
        Err(StartRefusal::InvalidContainerId)
    } else {
        Ok(())
    }
}

/// Decides on a request from its user agent as it was sent, in
/// whatever case, and its container id.
pub fn check_start_request(user_agent: Option<&str>, container_id: &str) -> (r: Result<
    (),
    StartRefusal,
>)
    ensures
        r == start_request_spec(
            match user_agent {
                Some(a) => Some(lowercase_of(a@)),
                None => None,
            },
            container_id@,
        ),
{
    match user_agent {
        Some(agent) => {
            let lower = to_lowercase(agent);
            start_request_allowed(Some(lower.as_str()), container_id)
        },
        None => start_request_allowed(None, container_id),
    }
}

} // verus!
