//! The account directory the handshake reads: nickname-to-identity
//! resolution. Accounts are `(id, nickname, password hash)` records with
//! unique ids and unique nicknames; ids are assigned by the directory.

use crate::text::str_eq;
use vstd::prelude::*;

verus! {

/// What a nickname lookup hands back: the account's id and stored
/// password hash.
pub struct User {
    pub id: u32,
    pub password_hash: String,
}

/// A full account record as the directory keeps it.
pub struct UserRecord {
    pub id: u32,
    pub nickname: String,
    pub password_hash: String,
}

pub ghost struct UserRecordV {
    pub id: u32,
    pub nickname: Seq<char>,
    pub password_hash: Seq<char>,
}

impl View for UserRecord {
    type V = UserRecordV;

    open spec fn view(&self) -> UserRecordV {
        UserRecordV { id: self.id, nickname: self.nickname@, password_hash: self.password_hash@ }
    }
}

/// The first record with the given nickname, if any.
pub open spec fn spec_lookup_nickname(users: Seq<UserRecordV>, nickname: Seq<char>) -> Option<
    UserRecordV,
>
    decreases users.len(),
{
    if users.len() == 0 {
        None
    } else if users[0].nickname == nickname {
        Some(users[0])
    } else {
        spec_lookup_nickname(users.drop_first(), nickname)
    }
}

/// The first record with the given id, if any.
pub open spec fn spec_lookup_id(users: Seq<UserRecordV>, id: u32) -> Option<UserRecordV>
    decreases users.len(),
{
    if users.len() == 0 {
        None
    } else if users[0].id == id {
        Some(users[0])
    } else {
        spec_lookup_id(users.drop_first(), id)
    }
}

pub struct UserRepo {
    pub users: Vec<UserRecord>,
    pub next_id: u32,
}

impl UserRepo {
    pub open spec fn wf(&self) -> bool {
        &&& 1 <= self.next_id
        &&& forall|i: int|
            0 <= i < self.users@.len() ==> 1 <= #[trigger] self.users@[i]@.id < self.next_id
        &&& forall|i: int, j: int|
            0 <= i < j < self.users@.len() ==> self.users@[i]@.id != self.users@[j]@.id
        &&& forall|i: int, j: int|
            0 <= i < j < self.users@.len() ==> self.users@[i]@.nickname != self.users@[
                j
            ]@.nickname
    }

    pub open spec fn view_users(&self) -> Seq<UserRecordV> {
        self.users@.map_values(|u: UserRecord| u@)
    }

    pub fn new() -> (r: Self)
        ensures
            r.wf(),
            r.view_users() == Seq::<UserRecordV>::empty(),
    {
        let r = UserRepo { users: Vec::new(), next_id: 1 };
        proof {
            assert(r.view_users() =~= Seq::<UserRecordV>::empty());
        }
        r
    }

    /// Creates an account. Fails exactly when the nickname is already
    /// taken (the directory keeps nicknames unique) or when no id is
    /// left to assign.
    pub fn store(&mut self, nickname: String, password_hash: String) -> (r: Result<(), ()>)
        requires
            old(self).wf(),
        ensures
            final(self).wf(),
            r is Ok <==> (spec_lookup_nickname(old(self).view_users(), nickname@) is None && old(
                self,
            ).next_id < u32::MAX),
            r is Ok ==> {
                &&& final(self).view_users() == old(self).view_users().push(
                    UserRecordV {
                        id: old(self).next_id,
                        nickname: nickname@,
                        password_hash: password_hash@,
                    },
                )
                &&& final(self).next_id == old(self).next_id + 1
            },
            r is Err ==> *final(self) == *old(self),
    {
        if self.find_index_by_nickname(nickname.as_str()).is_some() {
            return Err(());
        }
        if self.next_id == u32::MAX {
            return Err(());
        }
        let ghost oldusers = self.view_users();
        let id = self.next_id;
        let rec = UserRecord { id, nickname, password_hash };
        proof {
            lemma_lookup_nickname_none_covers(oldusers, rec@.nickname);
        }
        self.users.push(rec);
        self.next_id = id + 1;
        proof {
            let pre = old(self).users@;
            let post = self.users@;
            assert(forall|k: int| 0 <= k < pre.len() ==> oldusers[k] == #[trigger] pre[k]@);
            assert forall|i: int, j: int|
                0 <= i < j < post.len() implies post[i]@.nickname != post[j]@.nickname by {
                if j < pre.len() {
                } else {
                    assert(post[i]@ == pre[i]@);
                    assert(post[j]@.nickname == rec@.nickname);
                }
            }
            assert(self.view_users() =~= oldusers.push(
                UserRecordV { id, nickname: rec@.nickname, password_hash: rec@.password_hash },
            ));
        }
        Ok(())
    }

    /// Resolves a nickname to an account, as the handshake does.
    pub fn get_by_nickname(&self, nickname: &str) -> (r: Option<User>)
        ensures
            match spec_lookup_nickname(self.view_users(), nickname@) {
                Some(rec) => r matches Some(u) && u.id == rec.id && u.password_hash@
                    == rec.password_hash,
                None => r is None,
            },
    {
        match self.find_index_by_nickname(nickname) {
            Some(i) => {
                let rec = &self.users[i];
                Some(User { id: rec.id, password_hash: rec.password_hash.clone() })
            },
            None => None,
        }
    }

    /// The nickname belonging to an account id, if the account exists.
    pub fn nickname_of(&self, id: u32) -> (r: Option<&String>)
        ensures
            match spec_lookup_id(self.view_users(), id) {
                Some(rec) => r matches Some(n) && n@ == rec.nickname,
                None => r is None,
            },
    {
        let n = self.users.len();
        let mut i: usize = 0;
        while i < n
            invariant
                i <= n,
                n == self.users@.len(),
                forall|k: int| 0 <= k < i ==> self.view_users()[k].id != id,
            decreases n - i,
        {
            if self.users[i].id == id {
                proof {
                    lemma_lookup_id_found(self.view_users(), id, i as int);
                }
                return Some(&self.users[i].nickname);
            }
            i += 1;
        }
        proof {
            lemma_lookup_id_absent(self.view_users(), id);
        }
        None
    }

    /// The index of the record carrying the nickname, if any.
    fn find_index_by_nickname(&self, nickname: &str) -> (r: Option<usize>)
        ensures
            match r {
                Some(i) => i < self.users@.len() && self.view_users()[i as int].nickname
                    == nickname@ && spec_lookup_nickname(self.view_users(), nickname@) == Some(
                    self.view_users()[i as int],
                ),
                None => spec_lookup_nickname(self.view_users(), nickname@) is None,
            },
    {
        let n = self.users.len();
        let mut i: usize = 0;
        while i < n
            invariant
                i <= n,
                n == self.users@.len(),
                forall|k: int| 0 <= k < i ==> self.view_users()[k].nickname != nickname@,
            decreases n - i,
        {
            if str_eq(self.users[i].nickname.as_str(), nickname) {
                proof {
                    lemma_lookup_nickname_found(self.view_users(), nickname@, i as int);
                }
                return Some(i);
            }
            i += 1;
        }
        proof {
            lemma_lookup_nickname_absent(self.view_users(), nickname@);
        }
        None
    }
}

proof fn lemma_lookup_nickname_found(users: Seq<UserRecordV>, nickname: Seq<char>, i: int)
    requires
        0 <= i < users.len(),
        users[i].nickname == nickname,
        forall|k: int| 0 <= k < i ==> users[k].nickname != nickname,
    ensures
        spec_lookup_nickname(users, nickname) == Some(users[i]),
    decreases i,
{
    if i == 0 {
    } else {
        lemma_lookup_nickname_found(users.drop_first(), nickname, i - 1);
    }
}

proof fn lemma_lookup_nickname_absent(users: Seq<UserRecordV>, nickname: Seq<char>)
    requires
        forall|k: int| 0 <= k < users.len() ==> users[k].nickname != nickname,
    ensures
        spec_lookup_nickname(users, nickname) is None,
    decreases users.len(),
{
    if users.len() > 0 {
        lemma_lookup_nickname_absent(users.drop_first(), nickname);
    }
}

proof fn lemma_lookup_nickname_none_covers(users: Seq<UserRecordV>, nickname: Seq<char>)
    requires
        spec_lookup_nickname(users, nickname) is None,
    ensures
        forall|k: int| 0 <= k < users.len() ==> users[k].nickname != nickname,
    decreases users.len(),
{
    if users.len() > 0 {
        lemma_lookup_nickname_none_covers(users.drop_first(), nickname);
        assert forall|k: int| 0 <= k < users.len() implies users[k].nickname != nickname by {
            if k > 0 {
                assert(users[k] == users.drop_first()[k - 1]);
            }
        }
    }
}

proof fn lemma_lookup_id_found(users: Seq<UserRecordV>, id: u32, i: int)
    requires
        0 <= i < users.len(),
        users[i].id == id,
        forall|k: int| 0 <= k < i ==> users[k].id != id,
    ensures
        spec_lookup_id(users, id) == Some(users[i]),
    decreases i,
{
    if i == 0 {
    } else {
        lemma_lookup_id_found(users.drop_first(), id, i - 1);
    }
}

proof fn lemma_lookup_id_absent(users: Seq<UserRecordV>, id: u32)
    requires
        forall|k: int| 0 <= k < users.len() ==> users[k].id != id,
    ensures
        spec_lookup_id(users, id) is None,
    decreases users.len(),
{
    if users.len() > 0 {
        lemma_lookup_id_absent(users.drop_first(), id);
    }
}

} // verus!
