//! The persistence boundary for users, credentials and token rows, held in
//! memory. It enforces exactly the constraints the flows rely on: fresh
//! unique row ids, global uniqueness of credential values, and at most one
//! credential per user and type. Everything else — expiry, validation,
//! password checks — belongs to the flows.

use vstd::prelude::*;
use crate::domain::{Credential, CredentialType, Token, User};

verus! {

/// How a store operation can fail: the addressed row is absent, a uniqueness
/// constraint is violated, or the id space is exhausted.
#[derive(Clone, Copy, PartialEq, Eq, Structural, Debug)]
pub enum StoreError {
    NotFound,
    Conflict,
    Capacity,
}

/// The first user row carrying `user_id`, if any.
pub open spec fn spec_get_user(users: Seq<User>, user_id: i32) -> Option<User>
    decreases users.len(),
{
    if users.len() == 0 {
        None
    } else if users[0].id == user_id {
        Some(users[0])
    } else {
        spec_get_user(users.drop_first(), user_id)
    }
}

/// The first credential row carrying `value`, if any.
pub open spec fn spec_get_credential(creds: Seq<Credential>, value: Seq<char>) -> Option<
    Credential,
>
    decreases creds.len(),
{
    if creds.len() == 0 {
        None
    } else if creds[0].credential@ == value {
        Some(creds[0])
    } else {
        spec_get_credential(creds.drop_first(), value)
    }
}

/// The first token row carrying `user_id` and `auth_token`, if any.
pub open spec fn spec_find_token(tokens: Seq<Token>, user_id: i32, auth_token: Seq<char>) -> Option<
    Token,
>
    decreases tokens.len(),
{
    if tokens.len() == 0 {
        None
    } else if tokens[0].user_id == user_id && tokens[0].auth_token@ == auth_token {
        Some(tokens[0])
    } else {
        spec_find_token(tokens.drop_first(), user_id, auth_token)
    }
}

/// Whether `t` is the row addressed by a refresh: it belongs to `user_id`
/// and carries `refresh_token`.
pub open spec fn spec_refresh_matches(t: Token, user_id: i32, refresh_token: Seq<char>) -> bool {
    t.user_id == user_id && t.refresh_token@ == refresh_token
}

/// The position of the first token row addressed by `(user_id,
/// refresh_token)`, if any.
pub open spec fn spec_refresh_index(
    tokens: Seq<Token>,
    user_id: i32,
    refresh_token: Seq<char>,
) -> Option<int>
    decreases tokens.len(),
{
    if tokens.len() == 0 {
        None
    } else if spec_refresh_matches(tokens[0], user_id, refresh_token) {
        Some(0int)
    } else {
        match spec_refresh_index(tokens.drop_first(), user_id, refresh_token) {
            Some(j) => Some(j + 1),
            None => None,
        }
    }
}

/// All credential rows of one user, in insertion order.
pub open spec fn spec_user_credentials(creds: Seq<Credential>, user_id: i32) -> Seq<Credential>
    decreases creds.len(),
{
    if creds.len() == 0 {
        Seq::empty()
    } else {
        let rest = spec_user_credentials(creds.drop_last(), user_id);
        if creds.last().user_id == user_id {
            rest.push(creds.last())
        } else {
            rest
        }
    }
}

pub open spec fn spec_contains_user(users: Seq<User>, user_id: i32) -> bool {
    exists|i: int| 0 <= i < users.len() && (#[trigger] users[i]).id == user_id
}

pub open spec fn spec_value_taken(creds: Seq<Credential>, value: Seq<char>) -> bool {
    exists|i: int| 0 <= i < creds.len() && (#[trigger] creds[i]).credential@ == value
}

pub open spec fn spec_user_type_taken(
    creds: Seq<Credential>,
    user_id: i32,
    credential_type: CredentialType,
) -> bool {
    exists|i: int|
        0 <= i < creds.len() && (#[trigger] creds[i]).user_id == user_id && creds[i].credential_type
            == credential_type
}

/// The in-memory store. One value of this type is the transactional unit of
/// work of a flow: the flows only write to it once every fallible step has
/// succeeded, so a failed flow leaves it exactly as it was.
pub struct Store {
    pub users: Vec<User>,
    pub credentials: Vec<Credential>,
    pub tokens: Vec<Token>,
    pub next_user_id: i32,
    pub next_token_id: i32,
}

impl Store {
    /// The constraints the store maintains between operations.
    pub open spec fn wf(self) -> bool {
        &&& 1 <= self.next_user_id
        &&& 1 <= self.next_token_id
        &&& forall|i: int|
            0 <= i < self.users@.len() ==> 1 <= (#[trigger] self.users@[i]).id < self.next_user_id
        &&& forall|i: int, j: int|
            0 <= i < j < self.users@.len() ==> self.users@[i].id != self.users@[j].id
        &&& forall|i: int|
            0 <= i < self.tokens@.len() ==> 1 <= (#[trigger] self.tokens@[i]).id
                < self.next_token_id
        &&& forall|i: int, j: int|
            0 <= i < j < self.tokens@.len() ==> self.tokens@[i].id != self.tokens@[j].id
        &&& forall|i: int, j: int|
            0 <= i < j < self.credentials@.len() ==> self.credentials@[i].credential@
                != self.credentials@[j].credential@
        &&& forall|i: int, j: int|
            0 <= i < j < self.credentials@.len() ==> !(self.credentials@[i].user_id
                == self.credentials@[j].user_id && self.credentials@[i].credential_type
                == self.credentials@[j].credential_type)
    }

    /// An empty store, ready to persist its first rows.
    pub fn new() -> (r: Store)
        ensures
            r.wf(),
            r.users@ == Seq::<User>::empty(),
            r.credentials@ == Seq::<Credential>::empty(),
            r.tokens@ == Seq::<Token>::empty(),
            r.next_user_id == 1,
            r.next_token_id == 1,
    {
        Store {
            users: Vec::new(),
            credentials: Vec::new(),
            tokens: Vec::new(),
            next_user_id: 1,
            next_token_id: 1,
        }
    }

    /// Persist a new user row. The stored row takes a fresh id and both its
    /// timestamps from `user.time_created`; the caller's `id` and
    /// `last_updated` fields are ignored, as a database sequence would.
    pub fn insert_user(&mut self, user: User) -> (r: Result<User, StoreError>)
        requires
            old(self).wf(),
        ensures
            final(self).wf(),
            match r {
                Ok(u) => {
                    &&& old(self).next_user_id < i32::MAX
                    &&& u == (User {
                        id: old(self).next_user_id,
                        name: user.name,
                        password: user.password,
                        salt: user.salt,
                        time_created: user.time_created,
                        last_updated: user.time_created,
                    })
                    &&& final(self).users@ == old(self).users@.push(u)
                    &&& final(self).credentials == old(self).credentials
                    &&& final(self).tokens == old(self).tokens
                    &&& final(self).next_user_id == old(self).next_user_id + 1
                    &&& final(self).next_token_id == old(self).next_token_id
                },
                Err(e) => {
                    &&& *final(self) == *old(self)
                    &&& e == StoreError::Capacity
                    &&& old(self).next_user_id == i32::MAX
                },
            },
    {
        if self.next_user_id == i32::MAX {
            return Err(StoreError::Capacity);
        }
        let ghost pre = *self;
        let persisted = User {
            id: self.next_user_id,
            name: user.name,
            password: user.password,
            salt: user.salt,
            time_created: user.time_created,
            last_updated: user.time_created,
        };
        let returned = persisted.clone();
        self.users.push(persisted);
        self.next_user_id = self.next_user_id + 1;
        proof {
            let s = self.users@;
            assert forall|k: int| 0 <= k < s.len() implies 1 <= (#[trigger] s[k]).id
                < self.next_user_id by {
                if k < s.len() - 1 {
                    assert(s[k] == pre.users@[k]);
                }
            }
            assert forall|a: int, b: int| 0 <= a < b < s.len() implies s[a].id != s[b].id by {
                if b == s.len() - 1 {
                    assert(s[a] == pre.users@[a]);
                }
            }
        }
        Ok(returned)
    }

    /// Fetch the user row with this id, if one exists.
    #[verifier::loop_isolation(false)]
    pub fn get_user_with_id(&self, user_id: i32) -> (r: Option<User>)
        ensures
            r == spec_get_user(self.users@, user_id),
    {
        let n = self.users.len();
        let mut i: usize = 0;
        proof {
            assert(self.users@.skip(0int) =~= self.users@);
        }
        while i < n
            invariant
                i <= n,
                n == self.users@.len(),
                spec_get_user(self.users@, user_id) == spec_get_user(
                    self.users@.skip(i as int),
                    user_id,
                ),
            decreases n - i,
        {
            proof {
                assert(self.users@.skip(i as int)[0] == self.users@[i as int]);
                assert(self.users@.skip(i as int).drop_first() =~= self.users@.skip(i + 1));
            }
            if self.users[i].id == user_id {
                return Some(self.users[i].clone());
            }
            i = i + 1;
        }
        proof {
            assert(self.users@.skip(n as int) =~= Seq::<User>::empty());
        }
        None
    }

    /// Overwrite the stored row carrying `user.id` with `user`'s name,
    /// password, salt and update time, keeping the stored creation time.
    /// Fails when no row carries that id.
    #[verifier::loop_isolation(false)]
    pub fn update_user(&mut self, user: User) -> (r: Result<User, StoreError>)
        requires
            old(self).wf(),
        ensures
            final(self).wf(),
            match r {
                Ok(u) => exists|j: int|
                    {
                        &&& 0 <= j < old(self).users@.len()
                        &&& (#[trigger] old(self).users@[j]).id == user.id
                        &&& u == (User {
                            id: user.id,
                            name: user.name,
                            password: user.password,
                            salt: user.salt,
                            time_created: old(self).users@[j].time_created,
                            last_updated: user.last_updated,
                        })
                        &&& final(self).users@ == old(self).users@.update(j, u)
                        &&& final(self).credentials == old(self).credentials
                        &&& final(self).tokens == old(self).tokens
                        &&& final(self).next_user_id == old(self).next_user_id
                        &&& final(self).next_token_id == old(self).next_token_id
                    },
                Err(e) => {
                    &&& *final(self) == *old(self)
                    &&& e == StoreError::NotFound
                    &&& !spec_contains_user(old(self).users@, user.id)
                },
            },
    {
        let ghost pre = *self;
        let n = self.users.len();
        let mut i: usize = 0;
        while i < n
            invariant
                i <= n,
                *self == pre,
                n == self.users@.len(),
                forall|j: int| 0 <= j < i ==> (#[trigger] self.users@[j]).id != user.id,
            decreases n - i,
        {
            if self.users[i].id == user.id {
                let stored = self.users.remove(i);
                let updated = User {
                    id: user.id,
                    name: user.name,
                    password: user.password,
                    salt: user.salt,
                    time_created: stored.time_created,
                    last_updated: user.last_updated,
                };
                let returned = updated.clone();
                self.users.insert(i, updated);
                proof {
                    let j = i as int;
                    let rem = pre.users@.remove(j);
                    let s = self.users@;
                    pre.users@.remove_ensures(j);
                    rem.insert_ensures(j, returned);
                    assert(s == rem.insert(j, returned));
                    assert forall|k: int| 0 <= k < s.len() implies s[k] == pre.users@.update(
                        j,
                        returned,
                    )[k] by {
                        if k < j {
                            assert(rem.insert(j, returned)[k] == rem[k]);
                            assert(pre.users@.remove(j)[k] == pre.users@[k]);
                        } else if k == j {
                            assert(rem.insert(j, returned)[j] == returned);
                        } else {
                            assert(rem.insert(j, returned)[k] == rem[k - 1]);
                            assert(pre.users@.remove(j)[k - 1] == pre.users@[k]);
                        }
                    }
                    assert(s =~= pre.users@.update(j, returned));
                    assert(pre.users@[j].id == user.id);
                    assert forall|k: int| 0 <= k < s.len() implies (#[trigger] s[k]).id
                        == pre.users@[k].id by {
                        assert(s[k] == pre.users@.update(j, returned)[k]);
                    }
                    assert forall|a: int, b: int| 0 <= a < b < s.len() implies s[a].id
                        != s[b].id by {
                        assert(s[a].id == pre.users@[a].id);
                        assert(s[b].id == pre.users@[b].id);
                    }
                    assert forall|k: int| 0 <= k < s.len() implies 1 <= (#[trigger] s[k]).id
                        < self.next_user_id by {
                        assert(s[k].id == pre.users@[k].id);
                    }
                    assert(0 <= j < pre.users@.len() && pre.users@[j].id == user.id);
                }
                return Ok(returned);
            }
            i = i + 1;
        }
        Err(StoreError::NotFound)
    }

    /// Remove the user row with this id, handing it back if it existed.
    #[verifier::loop_isolation(false)]
    pub fn delete_user(&mut self, user_id: i32) -> (r: Option<User>)
        requires
            old(self).wf(),
        ensures
            final(self).wf(),
            match r {
                Some(u) => exists|j: int|
                    {
                        &&& 0 <= j < old(self).users@.len()
                        &&& u == (#[trigger] old(self).users@[j])
                        &&& u.id == user_id
                        &&& final(self).users@ == old(self).users@.remove(j)
                        &&& final(self).credentials == old(self).credentials
                        &&& final(self).tokens == old(self).tokens
                        &&& final(self).next_user_id == old(self).next_user_id
                        &&& final(self).next_token_id == old(self).next_token_id
                    },
                None => {
                    &&& *final(self) == *old(self)
                    &&& !spec_contains_user(old(self).users@, user_id)
                },
            },
    {
        let ghost pre = *self;
        let n = self.users.len();
        let mut i: usize = 0;
        while i < n
            invariant
                i <= n,
                *self == pre,
                n == self.users@.len(),
                forall|j: int| 0 <= j < i ==> (#[trigger] self.users@[j]).id != user_id,
            decreases n - i,
        {
            if self.users[i].id == user_id {
                let removed = self.users.remove(i);
                proof {
                    let j = i as int;
                    let s = self.users@;
                    pre.users@.remove_ensures(j);
                    assert forall|a: int, b: int| 0 <= a < b < s.len() implies s[a].id
                        != s[b].id by {
                        let pa: int = if a < j {
                            a
                        } else {
                            a + 1
                        };
                        let pb: int = if b < j {
                            b
                        } else {
                            b + 1
                        };
                        assert(pre.users@.remove(j)[a] == pre.users@[pa]);
                        assert(pre.users@.remove(j)[b] == pre.users@[pb]);
                    }
                    assert forall|k: int| 0 <= k < s.len() implies 1 <= (#[trigger] s[k]).id
                        < self.next_user_id by {
                        let pk: int = if k < j {
                            k
                        } else {
                            k + 1
                        };
                        assert(pre.users@.remove(j)[k] == pre.users@[pk]);
                    }
                }
                return Some(removed);
            }
            i = i + 1;
        }
        None
    }

    /// Persist a new credential row bound to `user_id`, not yet validated,
    /// with both timestamps set to `now`. Fails when the value is already
    /// taken by any user, or when this user already holds a credential of
    /// this type.
    #[verifier::loop_isolation(false)]
    pub fn insert_credential(
        &mut self,
        credential_dto: crate::dto::CredentialDto,
        user_id: i32,
        now: i64,
    ) -> (r: Result<Credential, StoreError>)
        requires
            old(self).wf(),
        ensures
            final(self).wf(),
            match r {
                Ok(c) => {
                    &&& !spec_value_taken(old(self).credentials@, credential_dto.credential@)
                    &&& !spec_user_type_taken(
                        old(self).credentials@,
                        user_id,
                        credential_dto.credential_type,
                    )
                    &&& c == (Credential {
                        user_id,
                        credential_type: credential_dto.credential_type,
                        credential: credential_dto.credential,
                        validated: false,
                        time_created: now,
                        last_updated: now,
                    })
                    &&& final(self).credentials@ == old(self).credentials@.push(c)
                    &&& final(self).users == old(self).users
                    &&& final(self).tokens == old(self).tokens
                    &&& final(self).next_user_id == old(self).next_user_id
                    &&& final(self).next_token_id == old(self).next_token_id
                },
                Err(e) => {
                    &&& *final(self) == *old(self)
                    &&& e == StoreError::Conflict
                    &&& (spec_value_taken(old(self).credentials@, credential_dto.credential@)
                        || spec_user_type_taken(
                        old(self).credentials@,
                        user_id,
                        credential_dto.credential_type,
                    ))
                },
            },
    {
        let ghost pre = *self;
        let n = self.credentials.len();
        let mut i: usize = 0;
        while i < n
            invariant
                i <= n,
                *self == pre,
                n == self.credentials@.len(),
                forall|j: int|
                    0 <= j < i ==> (#[trigger] self.credentials@[j]).credential@
                        != credential_dto.credential@,
                forall|j: int|
                    0 <= j < i ==> !((#[trigger] self.credentials@[j]).user_id == user_id
                        && self.credentials@[j].credential_type == credential_dto.credential_type),
            decreases n - i,
        {
            let row = &self.credentials[i];
            if row.credential.eq(&credential_dto.credential) {
                proof {
                    assert(self.credentials@[i as int].credential@ == credential_dto.credential@);
                }
                return Err(StoreError::Conflict);
            }
            if row.user_id == user_id && row.credential_type == credential_dto.credential_type {
                return Err(StoreError::Conflict);
            }
            i = i + 1;
        }
        let persisted = Credential {
            user_id,
            credential_type: credential_dto.credential_type,
            credential: credential_dto.credential,
            validated: false,
            time_created: now,
            last_updated: now,
        };
        let returned = persisted.clone();
        self.credentials.push(persisted);
        proof {
            let s = self.credentials@;
            assert forall|a: int, b: int| 0 <= a < b < s.len() implies s[a].credential@
                != s[b].credential@ by {
                if b == s.len() - 1 {
                    assert(s[a] == pre.credentials@[a]);
                }
            }
            assert forall|a: int, b: int| 0 <= a < b < s.len() implies !(s[a].user_id == s[b].user_id
                && s[a].credential_type == s[b].credential_type) by {
                if b == s.len() - 1 {
                    assert(s[a] == pre.credentials@[a]);
                }
            }
        }
        Ok(returned)
    }

    /// Fetch the credential row carrying this value, if one exists.
    #[verifier::loop_isolation(false)]
    pub fn get_credential(&self, credential: &String) -> (r: Option<Credential>)
        ensures
            r == spec_get_credential(self.credentials@, credential@),
    {
        let n = self.credentials.len();
        let mut i: usize = 0;
        proof {
            assert(self.credentials@.skip(0int) =~= self.credentials@);
        }
        while i < n
            invariant
                i <= n,
                n == self.credentials@.len(),
                spec_get_credential(self.credentials@, credential@) == spec_get_credential(
                    self.credentials@.skip(i as int),
                    credential@,
                ),
            decreases n - i,
        {
            proof {
                assert(self.credentials@.skip(i as int)[0] == self.credentials@[i as int]);
                assert(self.credentials@.skip(i as int).drop_first() =~= self.credentials@.skip(
                    i + 1,
                ));
            }
            if self.credentials[i].credential.eq(credential) {
                return Some(self.credentials[i].clone());
            }
            i = i + 1;
        }
        proof {
            assert(self.credentials@.skip(n as int) =~= Seq::<Credential>::empty());
        }
        None
    }

    /// All credential rows bound to this user, in insertion order.
    #[verifier::loop_isolation(false)]
    pub fn fetch_user_credentials(&self, user_id: i32) -> (r: Vec<Credential>)
        ensures
            r@ == spec_user_credentials(self.credentials@, user_id),
    {
        let n = self.credentials.len();
        let mut found: Vec<Credential> = Vec::new();
        let mut i: usize = 0;
        proof {
            assert(self.credentials@.take(0int) =~= Seq::<Credential>::empty());
        }
        while i < n
            invariant
                i <= n,
                n == self.credentials@.len(),
                found@ == spec_user_credentials(self.credentials@.take(i as int), user_id),
            decreases n - i,
        {
            proof {
                let taken = self.credentials@.take(i + 1);
                assert(taken.drop_last() =~= self.credentials@.take(i as int));
                assert(taken.last() == self.credentials@[i as int]);
            }
            if self.credentials[i].user_id == user_id {
                found.push(self.credentials[i].clone());
            }
            i = i + 1;
        }
        proof {
            assert(self.credentials@.take(n as int) =~= self.credentials@);
        }
        found
    }

    /// Persist a new token row. The stored row takes a fresh id and both its
    /// timestamps from `token.time_created`; the caller's `id` and
    /// `last_updated` fields are ignored.
    pub fn insert_token(&mut self, token: Token) -> (r: Result<Token, StoreError>)
        requires
            old(self).wf(),
        ensures
            final(self).wf(),
            match r {
                Ok(t) => {
                    &&& old(self).next_token_id < i32::MAX
                    &&& t == (Token {
                        id: old(self).next_token_id,
                        user_id: token.user_id,
                        auth_token: token.auth_token,
                        refresh_token: token.refresh_token,
                        time_created: token.time_created,
                        last_updated: token.time_created,
                    })
                    &&& final(self).tokens@ == old(self).tokens@.push(t)
                    &&& final(self).users == old(self).users
                    &&& final(self).credentials == old(self).credentials
                    &&& final(self).next_user_id == old(self).next_user_id
                    &&& final(self).next_token_id == old(self).next_token_id + 1
                },
                Err(e) => {
                    &&& *final(self) == *old(self)
                    &&& e == StoreError::Capacity
                    &&& old(self).next_token_id == i32::MAX
                },
            },
    {
        if self.next_token_id == i32::MAX {
            return Err(StoreError::Capacity);
        }
        let ghost pre = *self;
        let persisted = Token {
            id: self.next_token_id,
            user_id: token.user_id,
            auth_token: token.auth_token,
            refresh_token: token.refresh_token,
            time_created: token.time_created,
            last_updated: token.time_created,
        };
        let returned = persisted.clone();
        self.tokens.push(persisted);
        self.next_token_id = self.next_token_id + 1;
        proof {
            let s = self.tokens@;
            assert forall|k: int| 0 <= k < s.len() implies 1 <= (#[trigger] s[k]).id
                < self.next_token_id by {
                if k < s.len() - 1 {
                    assert(s[k] == pre.tokens@[k]);
                }
            }
            assert forall|a: int, b: int| 0 <= a < b < s.len() implies s[a].id != s[b].id by {
                if b == s.len() - 1 {
                    assert(s[a] == pre.tokens@[a]);
                }
            }
        }
        Ok(returned)
    }

    /// Write a new auth token and update time into the first row addressed
    /// by `(user_id, refresh_token)`, keeping everything else of the row.
    /// Fails, writing nothing, when no row matches.
    #[verifier::loop_isolation(false)]
    pub fn update_token(
        &mut self,
        user_id: i32,
        refresh_token: &String,
        new_auth_token: String,
        now: i64,
    ) -> (r: Result<Token, StoreError>)
        requires
            old(self).wf(),
        ensures
            final(self).wf(),
            match r {
                Ok(t) => {
                    &&& spec_refresh_index(old(self).tokens@, user_id, refresh_token@) matches Some(
                        j,
                    ) && t == (Token {
                        id: old(self).tokens@[j].id,
                        user_id: old(self).tokens@[j].user_id,
                        auth_token: new_auth_token,
                        refresh_token: old(self).tokens@[j].refresh_token,
                        time_created: old(self).tokens@[j].time_created,
                        last_updated: now,
                    }) && final(self).tokens@ == old(self).tokens@.update(j, t)
                    &&& final(self).users == old(self).users
                    &&& final(self).credentials == old(self).credentials
                    &&& final(self).next_user_id == old(self).next_user_id
                    &&& final(self).next_token_id == old(self).next_token_id
                },
                Err(e) => {
                    &&& *final(self) == *old(self)
                    &&& e == StoreError::NotFound
                    &&& spec_refresh_index(old(self).tokens@, user_id, refresh_token@) is None
                },
            },
    {
        let ghost pre = *self;
        let n = self.tokens.len();
        let mut i: usize = 0;
        while i < n
            invariant
                i <= n,
                *self == pre,
                n == self.tokens@.len(),
                forall|j: int|
                    0 <= j < i ==> !spec_refresh_matches(
                        #[trigger] self.tokens@[j],
                        user_id,
                        refresh_token@,
                    ),
            decreases n - i,
        {
            let row = &self.tokens[i];
            if row.user_id == user_id && row.refresh_token.eq(refresh_token) {
                proof {
                    assert(spec_refresh_matches(self.tokens@[i as int], user_id, refresh_token@));
                    lemma_refresh_index_first(self.tokens@, user_id, refresh_token@, i as int);
                }
                let stored = self.tokens.remove(i);
                let updated = Token {
                    id: stored.id,
                    user_id: stored.user_id,
                    auth_token: new_auth_token,
                    refresh_token: stored.refresh_token,
                    time_created: stored.time_created,
                    last_updated: now,
                };
                let returned = updated.clone();
                self.tokens.insert(i, updated);
                proof {
                    let j = i as int;
                    let rem = pre.tokens@.remove(j);
                    let s = self.tokens@;
                    pre.tokens@.remove_ensures(j);
                    rem.insert_ensures(j, returned);
                    assert(s == rem.insert(j, returned));
                    assert forall|k: int| 0 <= k < s.len() implies s[k] == pre.tokens@.update(
                        j,
                        returned,
                    )[k] by {
                        if k < j {
                            assert(rem.insert(j, returned)[k] == rem[k]);
                            assert(pre.tokens@.remove(j)[k] == pre.tokens@[k]);
                        } else if k == j {
                            assert(rem.insert(j, returned)[j] == returned);
                        } else {
                            assert(rem.insert(j, returned)[k] == rem[k - 1]);
                            assert(pre.tokens@.remove(j)[k - 1] == pre.tokens@[k]);
                        }
                    }
                    assert(s =~= pre.tokens@.update(j, returned));
                    assert forall|k: int| 0 <= k < s.len() implies (#[trigger] s[k]).id
                        == pre.tokens@[k].id by {
                        assert(s[k] == pre.tokens@.update(j, returned)[k]);
                    }
                    assert forall|a: int, b: int| 0 <= a < b < s.len() implies s[a].id
                        != s[b].id by {
                        assert(s[a].id == pre.tokens@[a].id);
                        assert(s[b].id == pre.tokens@[b].id);
                    }
                    assert forall|k: int| 0 <= k < s.len() implies 1 <= (#[trigger] s[k]).id
                        < self.next_token_id by {
                        assert(s[k].id == pre.tokens@[k].id);
                    }
                }
                return Ok(returned);
            }
            i = i + 1;
        }
        proof {
            lemma_refresh_index_none(self.tokens@, user_id, refresh_token@);
        }
        Err(StoreError::NotFound)
    }

    /// Remove the token row with this id, handing it back if it existed.
    #[verifier::loop_isolation(false)]
    pub fn remove_token(&mut self, token_id: i32) -> (r: Option<Token>)
        requires
            old(self).wf(),
        ensures
            final(self).wf(),
            match r {
                Some(t) => exists|j: int|
                    {
                        &&& 0 <= j < old(self).tokens@.len()
                        &&& t == (#[trigger] old(self).tokens@[j])
                        &&& t.id == token_id
                        &&& final(self).tokens@ == old(self).tokens@.remove(j)
                        &&& final(self).users == old(self).users
                        &&& final(self).credentials == old(self).credentials
                        &&& final(self).next_user_id == old(self).next_user_id
                        &&& final(self).next_token_id == old(self).next_token_id
                    },
                None => {
                    &&& *final(self) == *old(self)
                    &&& forall|j: int|
                        0 <= j < old(self).tokens@.len() ==> (#[trigger] old(
                            self,
                        ).tokens@[j]).id != token_id
                },
            },
    {
        let ghost pre = *self;
        let n = self.tokens.len();
        let mut i: usize = 0;
        while i < n
            invariant
                i <= n,
                *self == pre,
                n == self.tokens@.len(),
                forall|j: int| 0 <= j < i ==> (#[trigger] self.tokens@[j]).id != token_id,
            decreases n - i,
        {
            if self.tokens[i].id == token_id {
                let removed = self.tokens.remove(i);
                proof {
                    let j = i as int;
                    let s = self.tokens@;
                    pre.tokens@.remove_ensures(j);
                    assert forall|a: int, b: int| 0 <= a < b < s.len() implies s[a].id
                        != s[b].id by {
                        let pa: int = if a < j {
                            a
                        } else {
                            a + 1
                        };
                        let pb: int = if b < j {
                            b
                        } else {
                            b + 1
                        };
                        assert(pre.tokens@.remove(j)[a] == pre.tokens@[pa]);
                        assert(pre.tokens@.remove(j)[b] == pre.tokens@[pb]);
                    }
                    assert forall|k: int| 0 <= k < s.len() implies 1 <= (#[trigger] s[k]).id
                        < self.next_token_id by {
                        let pk: int = if k < j {
                            k
                        } else {
                            k + 1
                        };
                        assert(pre.tokens@.remove(j)[k] == pre.tokens@[pk]);
                    }
                }
                return Some(removed);
            }
            i = i + 1;
        }
        None
    }

    /// Fetch the token row carrying `(user_id, auth_token)`, if any.
    #[verifier::loop_isolation(false)]
    pub fn validate_user_token(&self, user_id: i32, auth_token: &String) -> (r: Option<Token>)
        ensures
            r == spec_find_token(self.tokens@, user_id, auth_token@),
    {
        let n = self.tokens.len();
        let mut i: usize = 0;
        proof {
            assert(self.tokens@.skip(0int) =~= self.tokens@);
        }
        while i < n
            invariant
                i <= n,
                n == self.tokens@.len(),
                spec_find_token(self.tokens@, user_id, auth_token@) == spec_find_token(
                    self.tokens@.skip(i as int),
                    user_id,
                    auth_token@,
                ),
            decreases n - i,
        {
            proof {
                assert(self.tokens@.skip(i as int)[0] == self.tokens@[i as int]);
                assert(self.tokens@.skip(i as int).drop_first() =~= self.tokens@.skip(i + 1));
            }
            let row = &self.tokens[i];
            if row.user_id == user_id && row.auth_token.eq(auth_token) {
                return Some(self.tokens[i].clone());
            }
            i = i + 1;
        }
        proof {
            assert(self.tokens@.skip(n as int) =~= Seq::<Token>::empty());
        }
        None
    }
}

/// Law: claims on a credential value exclude each other. Concurrent flows
/// serialize at the store, and the moment one of them commits a row for a
/// value, the value is taken — so by `insert_credential`'s contract every
/// later insert of the same value, from any racing flow whose pre-check had
/// still found the value free, can only return the conflict error: at most
/// one of two racing registrations on one unclaimed value succeeds.
pub proof fn lemma_claimed_value_taken(creds: Seq<Credential>, c: Credential)
    ensures
        spec_value_taken(creds.push(c), c.credential@),
{
    assert(creds.push(c)[creds.len() as int] == c);
}

/// When a row at `i` is addressed by the refresh and no earlier row is, `i`
/// is the first addressed position.
proof fn lemma_refresh_index_first(
    tokens: Seq<Token>,
    user_id: i32,
    refresh_token: Seq<char>,
    i: int,
)
    requires
        0 <= i < tokens.len(),
        spec_refresh_matches(tokens[i], user_id, refresh_token),
        forall|j: int|
            0 <= j < i ==> !spec_refresh_matches(#[trigger] tokens[j], user_id, refresh_token),
    ensures
        spec_refresh_index(tokens, user_id, refresh_token) == Some(i),
    decreases i,
{
    if i == 0 {
    } else {
        assert(!spec_refresh_matches(tokens[0], user_id, refresh_token));
        let rest = tokens.drop_first();
        assert forall|j: int| 0 <= j < i - 1 implies !spec_refresh_matches(
            #[trigger] rest[j],
            user_id,
            refresh_token,
        ) by {
            assert(rest[j] == tokens[j + 1]);
        }
        assert(rest[i - 1] == tokens[i]);
        lemma_refresh_index_first(rest, user_id, refresh_token, i - 1);
    }
}

/// When no row is addressed by the refresh, there is no first position.
proof fn lemma_refresh_index_none(tokens: Seq<Token>, user_id: i32, refresh_token: Seq<char>)
    requires
        forall|j: int|
            0 <= j < tokens.len() ==> !spec_refresh_matches(
                #[trigger] tokens[j],
                user_id,
                refresh_token,
            ),
    ensures
        spec_refresh_index(tokens, user_id, refresh_token) is None,
    decreases tokens.len(),
{
    if tokens.len() > 0 {
        let rest = tokens.drop_first();
        assert forall|j: int| 0 <= j < rest.len() implies !spec_refresh_matches(
            #[trigger] rest[j],
            user_id,
            refresh_token,
        ) by {
            assert(rest[j] == tokens[j + 1]);
        }
        lemma_refresh_index_none(rest, user_id, refresh_token);
    }
}

} // verus!
