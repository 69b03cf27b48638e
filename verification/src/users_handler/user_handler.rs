//! Applications and the users (named key pairs) registered with each.

use crate::assoc_map::AssocMap;
use crate::pubkey::{Keypair, Pubkey};
use vstd::prelude::*;

verus! {

/// The decimal digit character of `d` (below ten).
pub open spec fn digit_char(d: nat) -> char {
    if d == 0 { '0' } else if d == 1 { '1' } else if d == 2 { '2' } else if d == 3 { '3' }
    else if d == 4 { '4' } else if d == 5 { '5' } else if d == 6 { '6' } else if d == 7 { '7' }
    else if d == 8 { '8' } else { '9' }
}

/// The value of a decimal digit character.
pub open spec fn digit_value(c: char) -> nat {
    if c == '0' { 0 } else if c == '1' { 1 } else if c == '2' { 2 } else if c == '3' { 3 }
    else if c == '4' { 4 } else if c == '5' { 5 } else if c == '6' { 6 } else if c == '7' { 7 }
    else if c == '8' { 8 } else { 9 }
}

/// The decimal representation of `n`, without leading zeros.
pub open spec fn decimal(n: nat) -> Seq<char>
    decreases n,
{
    if n < 10 {
        seq![digit_char(n)]
    } else {
        decimal(n / 10).push(digit_char(n % 10))
    }
}

/// The number that a sequence of decimal digits denotes.
pub open spec fn decimal_value(s: Seq<char>) -> nat
    decreases s.len(),
{
    if s.len() == 0 {
        0
    } else {
        decimal_value(s.drop_last()) * 10 + digit_value(s.last())
    }
}

/// Reading the decimal representation of `n` back gives `n`.
pub proof fn lemma_decimal_value(n: nat)
    ensures
        decimal_value(decimal(n)) == n,
    decreases n,
{
    if n >= 10 {
        lemma_decimal_value(n / 10);
        assert(decimal(n).drop_last() =~= decimal(n / 10));
        assert(digit_value(digit_char(n % 10)) == n % 10);
        assert(n == (n / 10) * 10 + n % 10);
        let s = decimal(n);
        assert(s.last() == digit_char(n % 10));
        assert(decimal_value(s) == decimal_value(s.drop_last()) * 10 + digit_value(s.last()));
    } else {
        let s = decimal(n);
        assert(s.drop_last() =~= Seq::<char>::empty());
        assert(digit_value(digit_char(n)) == n);
        assert(decimal_value(s) == decimal_value(s.drop_last()) * 10 + digit_value(s.last()));
    }
}

/// The name of the `n`-th user of an application.
pub open spec fn user_name(n: nat) -> Seq<char> {
    seq!['u', 's', 'e', 'r'] + decimal(n)
}

/// Different numbers give different user names.
pub proof fn lemma_user_name_injective(a: nat, b: nat)
    requires
        user_name(a) == user_name(b),
    ensures
        a == b,
{
    assert(user_name(a).skip(4) =~= decimal(a));
    assert(user_name(b).skip(4) =~= decimal(b));
    lemma_decimal_value(a);
    lemma_decimal_value(b);
}

fn digit_str(d: usize) -> (s: &'static str)
    requires
        d < 10,
    ensures
        s@ == seq![digit_char(d as nat)],
{
    proof {
        reveal_strlit("0");
        reveal_strlit("1");
        reveal_strlit("2");
        reveal_strlit("3");
        reveal_strlit("4");
        reveal_strlit("5");
        reveal_strlit("6");
        reveal_strlit("7");
        reveal_strlit("8");
        reveal_strlit("9");
    }
    if d == 0 {
        "0"
    } else if d == 1 {
        "1"
    } else if d == 2 {
        "2"
    } else if d == 3 {
        "3"
    } else if d == 4 {
        "4"
    } else if d == 5 {
        "5"
    } else if d == 6 {
        "6"
    } else if d == 7 {
        "7"
    } else if d == 8 {
        "8"
    } else {
        "9"
    }
}

/// The decimal representation of `n` as a string.
pub fn decimal_string(n: usize) -> (s: String)
    ensures
        s@ == decimal(n as nat),
    decreases n,
{
    if n < 10 {
        String::from_str(digit_str(n))
    } else {
        let mut s = decimal_string(n / 10);
        s.append(digit_str(n % 10));
        s
    }
}

/// The users of one application, by name.
#[derive(Debug)]
pub struct Users {
    pub users: AssocMap<String, Keypair>,
}

/// All applications and their users.
#[derive(Debug)]
pub struct AppUserBase {
    pub app_user_base: AssocMap<Pubkey, Users>,
}

/// The users of an application are named `user1` to `userN`, one each.
pub open spec fn users_named_in_order(u: Users) -> bool {
    &&& u.users.wf()
    &&& u.users@.dom().finite()
    &&& forall|name: Seq<char>|
        #[trigger] u.users@.contains_key(name) <==> exists|i: nat|
            1 <= i <= u.users@.len() && name == user_name(i)
}

impl Default for AppUserBase {
    /// No application registered.
    fn default() -> (b: Self)
        ensures
            b.wf(),
            b.app_user_base@ == Map::<Seq<u8>, Users>::empty(),
    {
        AppUserBase { app_user_base: AssocMap::new() }
    }
}

impl AppUserBase {
    /// The map is well formed and every application's users are named in order.
    pub open spec fn wf(&self) -> bool {
        &&& self.app_user_base.wf()
        &&& forall|k: Seq<u8>|
            #[trigger] self.app_user_base@.contains_key(k) ==> users_named_in_order(self.app_user_base@[k])
    }

    /// Registers a new application with no users; it must not be registered yet.
    pub fn register_app(&mut self, program_id: Pubkey)
        requires
            old(self).wf(),
            !old(self).app_user_base@.contains_key(program_id@),
        ensures
            final(self).wf(),
            final(self).app_user_base@.dom() == old(self).app_user_base@.dom().insert(program_id@),
            forall|k: Seq<u8>| #[trigger] old(self).app_user_base@.contains_key(k) ==> final(self).app_user_base@[k] == old(self).app_user_base@[k],
            final(self).app_user_base@[program_id@].users@ == Map::<Seq<char>, Keypair>::empty(),
    {
        let users = Users { users: AssocMap::new() };
        proof {
            users.users.lemma_view();
        }
        let ghost before = self.app_user_base@;
        self.app_user_base.insert(program_id, Users { users: users.users });
        proof {
            assert(self.app_user_base@ == before.insert(program_id@, self.app_user_base@[program_id@]));
            assert forall|k: Seq<u8>| #[trigger] self.app_user_base@.contains_key(k) implies users_named_in_order(
                self.app_user_base@[k],
            ) by {
                if k == program_id@ {
                    let u = self.app_user_base@[k];
                    assert(u.users@ == Map::<Seq<char>, Keypair>::empty());
                    assert(u.users@.len() == 0);
                } else {
                    assert(before.contains_key(k));
                }
            }
            assert(self.app_user_base@.dom() =~= before.dom().insert(program_id@));
        }
    }

    /// Adds a user with a fresh key pair to a registered application; the
    /// `N`-th user is named `userN`.
    pub fn add_new_user_to_app(&mut self, app_program_id: Pubkey)
        requires
            old(self).wf(),
            old(self).app_user_base@.contains_key(app_program_id@),
            old(self).app_user_base@[app_program_id@].users@.len() < usize::MAX,
        ensures
            final(self).wf(),
            final(self).app_user_base@.dom() == old(self).app_user_base@.dom(),
            forall|k: Seq<u8>|
                #[trigger] old(self).app_user_base@.contains_key(k) && k != app_program_id@
                    ==> final(self).app_user_base@[k] == old(self).app_user_base@[k],
            ({
                let before = old(self).app_user_base@[app_program_id@].users@;
                let after = final(self).app_user_base@[app_program_id@].users@;
                let name = user_name(before.len() + 1);
                &&& !before.contains_key(name)
                &&& after.dom() == before.dom().insert(name)
                &&& after.len() == before.len() + 1
                &&& forall|n: Seq<char>| #[trigger] before.contains_key(n) ==> after[n] == before[n]
            }),
    {
        let i = self.app_user_base.index_of(&app_program_id).unwrap();
        let ghost before_all = self.app_user_base@;
        let ghost before = before_all[app_program_id@].users@;
        let users = self.app_user_base.value_at_mut(i);
        assert(users_named_in_order(*users));
        let count = users.users.len();
        let mut name = String::from_str("user");
        let digits = decimal_string(count + 1);
        name.append(digits.as_str());
        proof {
            reveal_strlit("user");
            assert(name@ =~= user_name((count + 1) as nat));
            if before.contains_key(name@) {
                let j = choose|j: nat| 1 <= j <= before.len() && name@ == user_name(j);
                lemma_user_name_injective(j, (count + 1) as nat);
            }
        }
        let ghost nm = name@;
        let keypair = Keypair::new();
        users.users.insert(name, keypair);
        proof {
            let after = users.users@;
            users.users.lemma_view();
            assert(after.dom() =~= before.dom().insert(nm));
            assert forall|n: Seq<char>| #[trigger] after.contains_key(n) <==> exists|j: nat|
                1 <= j <= after.len() && n == user_name(j) by {
                if after.contains_key(n) {
                    if n == nm {
                        assert(1 <= count + 1 <= after.len() && n == user_name((count + 1) as nat));
                    } else {
                        assert(before.contains_key(n));
                        let j = choose|j: nat| 1 <= j <= before.len() && n == user_name(j);
                        assert(1 <= j <= after.len());
                    }
                }
                if exists|j: nat| 1 <= j <= after.len() && n == user_name(j) {
                    let j = choose|j: nat| 1 <= j <= after.len() && n == user_name(j);
                    if j <= before.len() {
                        assert(before.contains_key(n));
                    } else {
                        assert(j == count + 1);
                    }
                }
            }
        }
        proof {
            assert forall|k: Seq<u8>| #[trigger] self.app_user_base@.contains_key(k) implies users_named_in_order(
                self.app_user_base@[k],
            ) by {
                if k != app_program_id@ {
                    assert(before_all.contains_key(k));
                }
            }
            assert(self.app_user_base@.dom() =~= before_all.dom());
        }
    }

    /// How many users a registered application has.
    pub fn get_current_len_of_userbase_of_app(&mut self, app_program_id: Pubkey) -> (n: usize)
        requires
            old(self).wf(),
            old(self).app_user_base@.contains_key(app_program_id@),
        ensures
            *final(self) == *old(self),
            n == old(self).app_user_base@[app_program_id@].users@.len(),
    {
        let users = self.app_user_base.get(&app_program_id).unwrap();
        users.users.len()
    }

    /// A copy of the key pair of user `user_name` of a registered application.
    pub fn get_keypair_from_user_name(&mut self, program_id: Pubkey, user_name: String) -> (k: Keypair)
        requires
            old(self).wf(),
            old(self).app_user_base@.contains_key(program_id@),
            old(self).app_user_base@[program_id@].users@.contains_key(user_name@),
        ensures
            *final(self) == *old(self),
            k == old(self).app_user_base@[program_id@].users@[user_name@],
    {
        let users = self.app_user_base.get(&program_id).unwrap();
        let keypair = users.users.get(&user_name).unwrap();
        keypair.insecure_clone()
    }
}

} // verus!
