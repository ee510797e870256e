//! The directory of users by which the owner of a container is found
//! for a mention, and the token that opens the directory.

use vstd::prelude::*;
use vstd::string::*;
use vstd::hash_map::StringHashMap;
use crate::notify::NotifyError;

verus! {

/// The directory's answer to a request for an access token.
#[derive(Clone, Debug, PartialEq, Eq)]
pub struct AccessToken {
    pub errcode: u32,
    pub errmsg: String,
    pub access_token: String,
    pub expires_in: i64,
}

/// One user of the directory.
#[derive(Clone, Debug, PartialEq, Eq)]
pub struct User {
    pub userid: String,
    pub name: String,
    pub email: String,
}

/// The directory's answer to a request for the users of a department.
#[derive(Clone, Debug, PartialEq, Eq)]
pub struct ListDetailUsersResponse {
    pub errcode: u32,
    pub errmsg: String,
    pub userlist: Vec<User>,
}

/// The lower-case form of a string, as the standard library gives it.
pub uninterp spec fn lowercase_of(s: Seq<char>) -> Seq<char>;

/// Calls `str::to_lowercase`. The result is taken to depend on the
/// characters of `s` alone; nothing more is claimed of it here.
#[verifier::external_body]
pub(crate) fn to_lowercase(s: &str) -> (r: String)
    ensures
        r@ == lowercase_of(s@),
{
    s.to_lowercase()
}

/// The address of a user who has none on record: the lower-case user id
/// at the company's domain.
pub open spec fn default_email_text(lowercase_userid: Seq<char>) -> Seq<char> {
    lowercase_userid + "@ones.ai"@
}

/// The address under which a user is filed: the one on record, or the
/// default where none is on record.
pub open spec fn directory_key(u: User) -> Seq<char> {
    if u.email@.len() == 0 {
        default_email_text(lowercase_of(u.userid@))
    } else {
        u.email@
    }
}

/// The directory after the users are filed in order, a later user
/// taking the place of an earlier one with the same address.
pub open spec fn with_users(m: Map<Seq<char>, String>, users: Seq<User>) -> Map<Seq<char>, String>
    decreases users.len(),
{
    if users.len() == 0 {
        m
    } else {
        with_users(m, users.drop_last()).insert(directory_key(users.last()), users.last().userid)
    }
}

/// The default address for a user id that is already in lower case.
pub fn default_email(lowercase_userid: &str) -> (email: String)
    ensures
        email@ == default_email_text(lowercase_userid@),
{
    let mut email = lowercase_userid.to_owned();
    email.append("@ones.ai");
    email
}

/// The address under which `user` is filed.
pub fn email_of(user: &User) -> (email: String)
    ensures
        email@ == directory_key(*user),
{
    if user.email.as_str().is_empty() {
        let lower = to_lowercase(user.userid.as_str());
        default_email(lower.as_str())
    } else {
        user.email.clone()
    }
}

/// User ids by address, kept from one lookup to the next.
pub struct UserDirectory {
    users: StringHashMap<String>,
}

impl View for UserDirectory {
    type V = Map<Seq<char>, String>;

    closed spec fn view(&self) -> Map<Seq<char>, String> {
        self.users@
    }
}

impl UserDirectory {
    /// A directory without users.
    pub fn new() -> (d: UserDirectory)
        ensures
            d@ == Map::<Seq<char>, String>::empty(),
    {
        UserDirectory { users: StringHashMap::new() }
    }

    /// The id of the user with this address, if one is on file.
    pub fn get(&self, email: &str) -> (r: Option<&String>)
        ensures
            r == (if self@.contains_key(email@) {
                Some(&self@[email@])
            } else {
                None::<&String>
            }),
    {
        self.users.get(email)
    }

    /// Files one user under an address.
    pub fn insert(&mut self, email: String, userid: String)
        ensures
            final(self)@ == old(self)@.insert(email@, userid),
    {
        self.users.insert(email, userid);
    }

    /// Files the users of an answer from the directory service. An
    /// answer with an error code files nothing and is an error.
    pub fn absorb(&mut self, res: &ListDetailUsersResponse) -> (r: Result<(), NotifyError>)
        ensures
            res.errcode != 0 ==> r == Err::<(), NotifyError>(NotifyError::Rejected(res.errmsg))
                && final(self)@ == old(self)@,
            res.errcode == 0 ==> r is Ok && final(self)@ == with_users(old(self)@, res.userlist@),
    {
        if res.errcode != 0 {
            return Err(NotifyError::Rejected(res.errmsg.clone()));
        }
        let mut k: usize = 0;
        assert(res.userlist@.subrange(0, 0) =~= Seq::<User>::empty());
        while k < res.userlist.len()
            invariant
                k <= res.userlist.len(),
                self@ == with_users(old(self)@, res.userlist@.subrange(0, k as int)),
            decreases res.userlist.len() - k,
        {
            assert(res.userlist@.subrange(0, k + 1).drop_last() =~= res.userlist@.subrange(
                0,
                k as int,
            ));
            let user = &res.userlist[k];
            self.users.insert(email_of(user), user.userid.clone());
            k += 1;
        }
        assert(res.userlist@.subrange(0, k as int) =~= res.userlist@);
        Ok(())
    }
}

/// The access token of the directory service and the time, in seconds
/// since the epoch, until which it is used.
#[derive(Clone, Debug, PartialEq, Eq)]
pub struct TokenCache {
    pub access_token: Option<String>,
    pub expires_time: Option<i64>,
}

/// Half of a token's lifetime, cut towards zero: half of -5 is -2.
pub open spec fn half_life(expires_in: i64) -> int {
    if expires_in >= 0 {
        expires_in as int / 2
    } else {
        -((-(expires_in as int)) / 2)
    }
}

/// The time until which a token fetched at `now` is used: `now` and
/// half of its lifetime, held at the first and the last second of the
/// clock where the sum lies beyond them.
pub open spec fn use_until(now: i64, expires_in: i64) -> int {
    let until = now + half_life(expires_in);
    if until > i64::MAX {
        i64::MAX as int
    } else if until < i64::MIN {
        i64::MIN as int
    } else {
        until
    }
}

impl TokenCache {
    /// A cache without a token.
    pub fn new() -> (c: TokenCache)
        ensures
            c.access_token is None,
            c.expires_time is None,
    {
        TokenCache { access_token: None, expires_time: None }
    }

    /// Whether a token is held and `now` is before the end of its use.
    pub open spec fn fresh_at(self, now: i64) -> bool {
        self.access_token is Some && self.expires_time is Some && now < self.expires_time->0
    }

    /// Whether the held token can be used at `now` without fetching
    /// another.
    pub fn is_fresh(&self, now: i64) -> (r: bool)
        ensures
            r == self.fresh_at(now),
    {
        match self.expires_time {
            Some(t) => now < t && self.access_token.is_some(),
            None => false,
        }
    }

    /// Takes the token of an answer from the directory service. An
    /// answer with an error code changes nothing and is an error.
    pub fn store(&mut self, res: AccessToken, now: i64) -> (r: Result<(), NotifyError>)
        ensures
            res.errcode != 0 ==> r == Err::<(), NotifyError>(NotifyError::Rejected(res.errmsg))
                && *final(self) == *old(self),
            res.errcode == 0 ==> r is Ok && final(self).access_token == Some(res.access_token)
                && final(self).expires_time == Some(use_until(now, res.expires_in) as i64),
    {
        if res.errcode != 0 {
            return Err(NotifyError::Rejected(res.errmsg));
        }
        let half: i64 = res.expires_in / 2;
        assert(half == half_life(res.expires_in));
        let until: i64 = if half >= 0 && now > i64::MAX - half {
            i64::MAX
        } else if half < 0 && now < i64::MIN - half {
            i64::MIN
        } else {
            now + half
        };
        self.access_token = Some(res.access_token);
        self.expires_time = Some(until);
        Ok(())
    }
}

/// The account at the directory service: its credentials, the token
/// that they gave, and the users found so far.
pub struct Wechat {
    pub corp_id: String,
    pub app_secret: String,
    pub tokens: TokenCache,
    pub users: UserDirectory,
}

impl Wechat {
    /// An account with these credentials, neither of which may be
    /// empty, without a token and without users.
    pub fn new(corp_id: &str, app_secret: &str) -> (r: Result<Wechat, NotifyError>)
        ensures
            corp_id@.len() == 0 || app_secret@.len() == 0 ==> r is Err && r->Err_0 is EmptyCredentials,
            corp_id@.len() > 0 && app_secret@.len() > 0 ==> {
                &&& r is Ok
                &&& r->Ok_0.corp_id@ == corp_id@
                &&& r->Ok_0.app_secret@ == app_secret@
                &&& r->Ok_0.tokens.access_token is None
                &&& r->Ok_0.tokens.expires_time is None
                &&& r->Ok_0.users@ == Map::<Seq<char>, String>::empty()
            },
    {
        if corp_id.is_empty() || app_secret.is_empty() {
            Err(NotifyError::EmptyCredentials)
        } else {
            Ok(
                Wechat {
                    corp_id: corp_id.to_owned(),
                    app_secret: app_secret.to_owned(),
                    tokens: TokenCache::new(),
                    users: UserDirectory::new(),
                },
            )
        }
    }

    /// Files the users of a department as the directory service
    /// answered them. An answer with an error code files nothing and is
    /// an error; so is an answer that comes while no token is held.
    pub fn map_users_by_department(&mut self, res: &ListDetailUsersResponse) -> (r: Result<
        (),
        NotifyError,
    >)
        ensures
            final(self).corp_id == old(self).corp_id,
            final(self).app_secret == old(self).app_secret,
            final(self).tokens == old(self).tokens,
            old(self).tokens.access_token is None ==> r is Err && r->Err_0 is NoToken
                && final(self).users@ == old(self).users@,
            old(self).tokens.access_token is Some && res.errcode != 0 ==> r == Err::<
                (),
                NotifyError,
            >(NotifyError::Rejected(res.errmsg)) && final(self).users@ == old(self).users@,
            old(self).tokens.access_token is Some && res.errcode == 0 ==> r is Ok
                && final(self).users@ == with_users(old(self).users@, res.userlist@),
    {
        if self.tokens.access_token.is_none() {
            return Err(NotifyError::NoToken);
        }
        self.users.absorb(res)
    }
}

} // verus!
