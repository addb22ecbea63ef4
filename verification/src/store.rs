//! The in-memory mailbox and credential backend: named mailboxes with
//! their status counts, a credential list, name lookup, and the wildcard
//! matching LIST uses (`*` crosses the `/` hierarchy delimiter, `%` does
//! not).
use vstd::prelude::*;

verus! {

/// One mailbox: its name, whether LIST marks it `\Noselect`, and its
/// synthetic status counts.
#[derive(Clone, Debug)]
pub struct MailboxInfo {
    pub name: Vec<u8>,
    pub noselect: bool,
    pub exists: u32,
    pub recent: u32,
    pub unseen: u32,
    pub uid_validity: u32,
    pub uid_next: u32,
}

/// The view of a `MailboxInfo`.
pub ghost struct MailboxInfoView {
    pub name: Seq<u8>,
    pub noselect: bool,
    pub exists: u32,
    pub recent: u32,
    pub unseen: u32,
    pub uid_validity: u32,
    pub uid_next: u32,
}

impl View for MailboxInfo {
    type V = MailboxInfoView;

    open spec fn view(&self) -> MailboxInfoView {
        MailboxInfoView {
            name: self.name@,
            noselect: self.noselect,
            exists: self.exists,
            recent: self.recent,
            unseen: self.unseen,
            uid_validity: self.uid_validity,
            uid_next: self.uid_next,
        }
    }
}

/// One username and password pair the credential backend accepts.
#[derive(Clone, Debug)]
pub struct Credential {
    pub username: Vec<u8>,
    pub password: Vec<u8>,
}

/// The view of a `Credential`.
pub ghost struct CredentialView {
    pub username: Seq<u8>,
    pub password: Seq<u8>,
}

impl View for Credential {
    type V = CredentialView;

    open spec fn view(&self) -> CredentialView {
        CredentialView { username: self.username@, password: self.password@ }
    }
}

/// The in-memory backend a connection consults: its mailboxes and its
/// accepted credentials.
#[derive(Clone, Debug)]
pub struct MailStore {
    pub mailboxes: Vec<MailboxInfo>,
    pub users: Vec<Credential>,
}

/// The view of a `MailStore`.
pub ghost struct StoreView {
    pub mailboxes: Seq<MailboxInfoView>,
    pub users: Seq<CredentialView>,
}

impl View for MailStore {
    type V = StoreView;

    open spec fn view(&self) -> StoreView {
        StoreView {
            mailboxes: Seq::new(self.mailboxes@.len(), |i: int| self.mailboxes@[i]@),
            users: Seq::new(self.users@.len(), |i: int| self.users@[i]@),
        }
    }
}

/// The credential backend accepts this username and password.
pub open spec fn has_cred(st: StoreView, u: Seq<u8>, p: Seq<u8>) -> bool {
    exists|i: int|
        0 <= i < st.users.len() && #[trigger] st.users[i].username == u && st.users[i].password
            == p
}

/// The first mailbox of that name, or `None`.
pub open spec fn find_mb(ms: Seq<MailboxInfoView>, name: Seq<u8>) -> Option<MailboxInfoView>
    decreases ms.len(),
{
    if ms.len() == 0 {
        None
    } else if ms[0].name == name {
        Some(ms[0])
    } else {
        find_mb(ms.drop_first(), name)
    }
}

/// If `i` names a match with none before it, `find_mb` returns it.
pub proof fn lemma_find_mb_is(ms: Seq<MailboxInfoView>, name: Seq<u8>, i: int)
    requires
        0 <= i < ms.len(),
        ms[i].name == name,
        forall|j: int| 0 <= j < i ==> (#[trigger] ms[j]).name != name,
    ensures
        find_mb(ms, name) == Some(ms[i]),
    decreases ms.len(),
{
    if i == 0 {
    } else {
        assert(ms[0].name != name);
        lemma_find_mb_is(ms.drop_first(), name, i - 1);
    }
}

/// If no mailbox has the name, `find_mb` finds none.
pub proof fn lemma_find_mb_none(ms: Seq<MailboxInfoView>, name: Seq<u8>)
    requires
        forall|j: int| 0 <= j < ms.len() ==> (#[trigger] ms[j]).name != name,
    ensures
        find_mb(ms, name) is None,
    decreases ms.len(),
{
    if ms.len() > 0 {
        lemma_find_mb_none(ms.drop_first(), name);
    }
}

/// Two byte strings hold the same bytes.
pub fn bytes_eq(a: &[u8], b: &[u8]) -> (r: bool)
    ensures
        r == (a@ == b@),
{
    if a.len() != b.len() {
        return false;
    }
    let n = a.len();
    let mut i: usize = 0;
    while i < n
        invariant
            i <= n,
            n == a@.len() && n == b@.len(),
            forall|j: int| 0 <= j < i ==> a@[j] == b@[j],
        decreases n - i,
    {
        if a[i] != b[i] {
            return false;
        }
        i = i + 1;
    }
    proof {
        assert(a@ =~= b@);
    }
    true
}

/// LIST wildcard matching against the `/` hierarchy delimiter: `*`
/// matches any characters, `%` any characters except `/`, every other
/// byte itself.
pub open spec fn glob_match(p: Seq<u8>, s: Seq<u8>) -> bool
    decreases p.len(), s.len(),
{
    if p.len() == 0 {
        s.len() == 0
    } else if p[0] == 42 {
        glob_match(p.drop_first(), s) || (s.len() > 0 && glob_match(p, s.drop_first()))
    } else if p[0] == 37 {
        glob_match(p.drop_first(), s) || (s.len() > 0 && s[0] != 47 && glob_match(
            p,
            s.drop_first(),
        ))
    } else {
        s.len() > 0 && s[0] == p[0] && glob_match(p.drop_first(), s.drop_first())
    }
}

/// Decides `glob_match` on the suffixes beginning at `pi` and `si`.
fn glob_match_at(p: &[u8], s: &[u8], pi: usize, si: usize) -> (r: bool)
    requires
        pi <= p@.len(),
        si <= s@.len(),
    ensures
        r == glob_match(
            p@.subrange(pi as int, p@.len() as int),
            s@.subrange(si as int, s@.len() as int),
        ),
    decreases p@.len() - pi, s@.len() - si,
{
    let ghost pw = p@.subrange(pi as int, p@.len() as int);
    let ghost sw = s@.subrange(si as int, s@.len() as int);
    proof {
        if pw.len() > 0 {
            assert(pw.drop_first() =~= p@.subrange(pi + 1, p@.len() as int));
        }
        if sw.len() > 0 {
            assert(sw.drop_first() =~= s@.subrange(si + 1, s@.len() as int));
        }
    }
    if pi == p.len() {
        si == s.len()
    } else if p[pi] == 42 {
        if glob_match_at(p, s, pi + 1, si) {
            true
        } else if si < s.len() {
            glob_match_at(p, s, pi, si + 1)
        } else {
            false
        }
    } else if p[pi] == 37 {
        if glob_match_at(p, s, pi + 1, si) {
            true
        } else if si < s.len() && s[si] != 47 {
            glob_match_at(p, s, pi, si + 1)
        } else {
            false
        }
    } else {
        si < s.len() && s[si] == p[pi] && glob_match_at(p, s, pi + 1, si + 1)
    }
}

/// Decides `glob_match` on whole pattern and name.
pub fn matches_pattern(p: &[u8], s: &[u8]) -> (r: bool)
    ensures
        r == glob_match(p@, s@),
{
    proof {
        assert(p@.subrange(0, p@.len() as int) =~= p@);
        assert(s@.subrange(0, s@.len() as int) =~= s@);
    }
    glob_match_at(p, s, 0, 0)
}

impl MailStore {
    /// A backend with no mailboxes and no users.
    pub fn new() -> (r: MailStore)
        ensures
            r@.mailboxes.len() == 0,
            r@.users.len() == 0,
    {
        MailStore { mailboxes: Vec::new(), users: Vec::new() }
    }

    /// Adds a mailbox at the end of the list.
    pub fn add_mailbox(&mut self, mb: MailboxInfo)
        ensures
            final(self)@.mailboxes == old(self)@.mailboxes.push(mb@),
            final(self)@.users == old(self)@.users,
    {
        let ghost before = self@;
        self.mailboxes.push(mb);
        proof {
            assert(self@.mailboxes =~= before.mailboxes.push(self.mailboxes@.last()@));
            assert(self@.users =~= before.users);
        }
    }

    /// Adds an accepted credential pair.
    pub fn add_user(&mut self, username: Vec<u8>, password: Vec<u8>)
        ensures
            final(self)@.users == old(self)@.users.push(
                CredentialView { username: username@, password: password@ },
            ),
            final(self)@.mailboxes == old(self)@.mailboxes,
    {
        let ghost before = self@;
        let ghost uv = username@;
        let ghost pv = password@;
        self.users.push(Credential { username, password });
        proof {
            assert(self@.users =~= before.users.push(
                CredentialView { username: uv, password: pv },
            ));
            assert(self@.mailboxes =~= before.mailboxes);
        }
    }

    /// Decides whether the credential backend accepts the pair.
    pub fn verify_login(&self, u: &[u8], p: &[u8]) -> (r: bool)
        ensures
            r == has_cred(self@, u@, p@),
    {
        let n = self.users.len();
        let mut i: usize = 0;
        while i < n
            invariant
                i <= n,
                n == self@.users.len(),
                n == self.users@.len(),
                forall|j: int|
                    0 <= j < i ==> !((#[trigger] self@.users[j]).username == u@
                        && self@.users[j].password == p@),
            decreases n - i,
        {
            let c = &self.users[i];
            if bytes_eq(c.username.as_slice(), u) && bytes_eq(c.password.as_slice(), p) {
                proof {
                    assert(self@.users[i as int].username == u@ && self@.users[i as int].password
                        == p@);
                }
                return true;
            }
            i = i + 1;
        }
        false
    }

    /// Finds the first mailbox of that name, as `find_mb`.
    pub fn lookup_mailbox(&self, name: &[u8]) -> (r: Option<usize>)
        ensures
            match r {
                Some(i) => i < self@.mailboxes.len() && find_mb(self@.mailboxes, name@) == Some(
                    self@.mailboxes[i as int],
                ) && self@.mailboxes[i as int].name == name@,
                None => find_mb(self@.mailboxes, name@) is None,
            },
    {
        let n = self.mailboxes.len();
        let mut i: usize = 0;
        while i < n
            invariant
                i <= n,
                n == self@.mailboxes.len(),
                n == self.mailboxes@.len(),
                forall|j: int| 0 <= j < i ==> (#[trigger] self@.mailboxes[j]).name != name@,
            decreases n - i,
        {
            if bytes_eq(self.mailboxes[i].name.as_slice(), name) {
                proof {
                    lemma_find_mb_is(self@.mailboxes, name@, i as int);
                }
                return Some(i);
            }
            i = i + 1;
        }
        proof {
            lemma_find_mb_none(self@.mailboxes, name@);
        }
        None
    }
}

} // verus!
