//! The account table. Accounts are keyed by their credential pair (name and
//! password together); ids are handed out in order from 0 and an account is
//! never changed or removed.

use vstd::prelude::*;
use crate::api::{opt_view, User, UserView};

verus! {

/// A stored account: its public profile and its password.
pub struct Account {
    pub id: u32,
    pub name: String,
    pub pass: String,
    pub avatar: Option<String>,
}

pub struct AccountView {
    pub id: u32,
    pub name: Seq<char>,
    pub pass: Seq<char>,
    pub avatar: Option<Seq<char>>,
}

impl View for Account {
    type V = AccountView;

    open spec fn view(&self) -> AccountView {
        AccountView { id: self.id, name: self.name@, pass: self.pass@, avatar: opt_view(self.avatar) }
    }
}

/// What the clients may see of an account.
pub open spec fn profile(a: AccountView) -> UserView {
    UserView { id: a.id, name: a.name, avatar: a.avatar }
}

pub open spec fn has_credentials(a: AccountView, name: Seq<char>, pass: Seq<char>) -> bool {
    a.name == name && a.pass == pass
}

/// The id of the account with this credential pair, if there is one.
pub open spec fn find_account(accounts: Seq<AccountView>, name: Seq<char>, pass: Seq<char>) -> Option<
    u32,
> {
    if exists|i: int| 0 <= i < accounts.len() && has_credentials(accounts[i], name, pass) {
        let i = choose|i: int| 0 <= i < accounts.len() && has_credentials(accounts[i], name, pass);
        Some(accounts[i].id)
    } else {
        None
    }
}

/// Ids are the positions, they fit in a `u32`, and no two accounts share a
/// credential pair.
pub open spec fn accounts_wf(accounts: Seq<AccountView>) -> bool {
    &&& accounts.len() <= u32::MAX + 1
    &&& forall|i: int| 0 <= i < accounts.len() ==> #[trigger] accounts[i].id == i
    &&& forall|i: int, j: int|
        0 <= i < j < accounts.len() ==> !has_credentials(
            #[trigger] accounts[i],
            accounts[j].name,
            #[trigger] accounts[j].pass,
        )
}

/// The ids of all accounts are used: no account can be added.
pub open spec fn accounts_full(accounts: Seq<AccountView>) -> bool {
    accounts.len() > u32::MAX
}

pub open spec fn opt_str_view(o: Option<&str>) -> Option<Seq<char>> {
    match o {
        Some(s) => Some(s@),
        None => None,
    }
}

/// The account table after `push_new(name, pass, avatar)`, with its answer.
pub open spec fn push_new_spec(
    accounts: Seq<AccountView>,
    name: Seq<char>,
    pass: Seq<char>,
    avatar: Option<Seq<char>>,
) -> (Seq<AccountView>, Option<u32>) {
    if find_account(accounts, name, pass) is Some || accounts_full(accounts) {
        (accounts, None)
    } else {
        let id = accounts.len() as u32;
        (accounts.push(AccountView { id, name, pass, avatar }), Some(id))
    }
}

pub struct Users {
    accounts: Vec<Account>,
}

impl View for Users {
    type V = Seq<AccountView>;

    closed spec fn view(&self) -> Seq<AccountView> {
        self.accounts@.map_values(|a: Account| a@)
    }
}

impl Users {
    pub open spec fn wf(&self) -> bool {
        accounts_wf(self@)
    }

    /// An empty table.
    pub fn new() -> (r: Users)
        ensures
            r@ == Seq::<AccountView>::empty(),
            r.wf(),
    {
        let r = Users { accounts: Vec::new() };
        assert(r@ =~= Seq::<AccountView>::empty());
        r
    }

    /// The number of accounts.
    pub fn len(&self) -> (r: usize)
        ensures
            r == self@.len(),
    {
        self.accounts.len()
    }

    /// Adds an account with the next id, unless the credential pair is taken
    /// or every id is in use; answers the new id.
    pub fn push_new(&mut self, name: &str, pass: &str, avatar: Option<&str>) -> (r: Option<u32>)
        requires
            old(self).wf(),
        ensures
            final(self).wf(),
            (final(self)@, r) == push_new_spec(old(self)@, name@, pass@, opt_str_view(avatar)),
    {
        if self.get(name, pass).is_some() {
            return None;
        }
        let n = self.accounts.len();
        if n > u32::MAX as usize {
            return None;
        }
        let id = n as u32;
        let avatar: Option<String> = match avatar {
            Some(a) => Some(a.to_owned()),
            None => None,
        };
        let account = Account { id, name: name.to_owned(), pass: pass.to_owned(), avatar };
        let ghost before = self@;
        self.accounts.push(account);
        proof {
            assert(self@ =~= before.push(account@));
            assert forall|i: int, j: int|
                0 <= i < j < self@.len() implies !has_credentials(
                #[trigger] self@[i],
                self@[j].name,
                #[trigger] self@[j].pass,
            ) by {
                if j == before.len() {
                    assert(!has_credentials(before[i], name@, pass@));
                }
            }
        }
        Some(id)
    }

    /// The id of the account with this credential pair.
    pub fn get(&self, name: &str, pass: &str) -> (r: Option<u32>)
        requires
            self.wf(),
        ensures
            r == find_account(self@, name@, pass@),
    {
        let name_owned = name.to_owned();
        let pass_owned = pass.to_owned();
        let mut i: usize = 0;
        while i < self.accounts.len()
            invariant
                i <= self@.len(),
                self.wf(),
                name_owned@ == name@,
                pass_owned@ == pass@,
                forall|j: int| 0 <= j < i ==> !has_credentials(#[trigger] self@[j], name@, pass@),
            decreases self@.len() - i,
        {
            let a = &self.accounts[i];
            proof {
                assert(self@[i as int] == a@);
            }
            if a.name == name_owned && a.pass == pass_owned {
                proof {
                    assert(has_credentials(self@[i as int], name@, pass@));
                    let k = choose|k: int|
                        0 <= k < self@.len() && has_credentials(self@[k], name@, pass@);
                    if k != i {
                        if k < i {
                            assert(!has_credentials(self@[k], name@, pass@));
                        } else {
                            assert(!has_credentials(self@[i as int], self@[k].name, self@[k].pass));
                        }
                    }
                }
                return Some(a.id);
            }
            i = i + 1;
        }
        None
    }

    /// The account with this id.
    pub fn get_by_id(&self, id: u32) -> (r: Option<&Account>)
        requires
            self.wf(),
        ensures
            id < self@.len() ==> (r matches Some(a) && a@ == self@[id as int]),
            id >= self@.len() ==> r is None,
    {
        if (id as usize) < self.accounts.len() {
            proof {
                assert(self@[id as int] == self.accounts@[id as int]@);
            }
            Some(&self.accounts[id as usize])
        } else {
            None
        }
    }

    /// The profile of every account, in id order.
    pub fn profiles(&self) -> (r: Vec<User>)
        ensures
            r@.map_values(|u: User| u@) == self@.map_values(|a: AccountView| profile(a)),
    {
        let mut out: Vec<User> = Vec::new();
        let mut i: usize = 0;
        while i < self.accounts.len()
            invariant
                i <= self@.len(),
                out@.map_values(|u: User| u@) =~= self@.subrange(0, i as int).map_values(
                    |a: AccountView| profile(a),
                ),
            decreases self@.len() - i,
        {
            let a = &self.accounts[i];
            proof {
                assert(self@[i as int] == a@);
            }
            let u = User { id: a.id, name: a.name.clone(), avatar: crate::api::copy_opt(&a.avatar) };
            let ghost prev = out@;
            out.push(u);
            proof {
                assert(u@ == profile(a@));
                assert(out@.map_values(|u: User| u@) =~= prev.map_values(|u: User| u@).push(u@));
                assert(self@.subrange(0, i + 1).map_values(|a: AccountView| profile(a))
                    =~= self@.subrange(0, i as int).map_values(|a: AccountView| profile(a)).push(
                    profile(a@),
                ));
            }
            i = i + 1;
        }
        proof {
            assert(self@.subrange(0, self@.len() as int) =~= self@);
        }
        out
    }
}

} // verus!
