use vstd::prelude::*;

verus! {

/// The user names and passwords that may open a session.
pub struct AuthManager {
    users: Vec<(String, String)>,
}

impl AuthManager {
    /// `username` with `password` is one of the known pairs.
    pub closed spec fn accepts(&self, username: Seq<char>, password: Seq<char>) -> bool {
        exists|i: int|
            0 <= i < self.users@.len() && self.users@[i].0@ == username && self.users@[i].1@
                == password
    }

    /// The single built-in account, `admin` with password `password`.
    pub fn new() -> (r: AuthManager)
        ensures
            forall|u: Seq<char>, p: Seq<char>|
                r.accepts(u, p) <==> u == "admin"@ && p == "password"@,
    {
        let mut users: Vec<(String, String)> = Vec::new();
        users.push(("admin".to_owned(), "password".to_owned()));
        let r = AuthManager { users };
        assert forall|u: Seq<char>, p: Seq<char>|
            r.accepts(u, p) <==> u == "admin"@ && p == "password"@ by {
            if u == "admin"@ && p == "password"@ {
                assert(r.users@[0].0@ == u && r.users@[0].1@ == p);
            }
        }
        r
    }

    /// Whether `username` with `password` may open a session.
    pub fn authenticate(&self, username: &str, password: &str) -> (r: bool)
        ensures
            r == self.accepts(username@, password@),
    {
        let u = username.to_owned();
        let p = password.to_owned();
        let mut i: usize = 0;
        while i < self.users.len()
            invariant
                i <= self.users@.len(),
                u@ == username@,
                p@ == password@,
                forall|j: int|
                    0 <= j < i ==> !(self.users@[j].0@ == username@ && self.users@[j].1@
                        == password@),
            decreases self.users@.len() - i,
        {
            let entry = &self.users[i];
            if entry.0 == u && entry.1 == p {
                return true;
            }
            i = i + 1;
        }
        false
    }
}

} // verus!
