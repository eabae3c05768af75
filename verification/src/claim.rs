//! Claiming a server that has no users yet.
use vstd::prelude::*;

use crate::error::{status_error, violation, ApiError, ErrorView, Violation, ViolationView};
use crate::text::{blank, chars_of, find_char};

verus! {

/// Whether a server has an owner.
#[derive(Debug, PartialEq, Eq)]
pub struct ClaimStatus {
    pub is_claimed: bool,
}

/// A server is claimed once it has a user.
pub fn claim_status(users: i64) -> (r: ClaimStatus)
    ensures
        r.is_claimed == (users > 0),
{
    ClaimStatus { is_claimed: users > 0 }
}

/// What a user may do.
#[derive(Clone, Copy, Debug, PartialEq, Eq, Structural)]
pub enum UserRole {
    Admin,
    FileDownload,
    PageStreaming,
    KoboSync,
    KoreaderSync,
}

/// A user to be created.
#[derive(Debug, PartialEq, Eq)]
pub struct NewUser {
    pub email: String,
    pub password: String,
    pub roles: Vec<UserRole>,
    pub shared_all_libraries: bool,
}

/// Whether an at sign at `at` and a dot at `dot` part a text as those of an email address do: with
/// something before, between and behind them.
pub open spec fn is_parted(s: Seq<char>, at: int, dot: int) -> bool {
    &&& 0 < at
    &&& at + 1 < dot
    &&& dot + 1 < s.len()
    &&& s[at] == '@'
    &&& s[dot] == '.'
}

/// Whether a text can be an email address, that is, whether it matches `.+@.+\..+`.
pub open spec fn is_email(s: Seq<char>) -> bool {
    exists|at: int, dot: int| is_parted(s, at, dot)
}

/// A text with something before an at sign, something between it and a dot, and something behind the dot
/// can be an email address; one without an at sign or without a dot cannot, nor one with nothing before,
/// between or behind them.
pub proof fn email_is_parted_by_its_signs(a: Seq<char>, b: Seq<char>, c: Seq<char>, s: Seq<char>)
    ensures
        a.len() > 0 && b.len() > 0 && c.len() > 0 ==> is_email(a + seq!['@'] + b + seq!['.'] + c),
        is_email(s) ==> s.contains('@') && s.contains('.') && s.len() >= 5,
        !b.contains('@') && !b.contains('.') ==> !is_email(seq!['@'] + b),
        !a.contains('@') && !a.contains('.') ==> !is_email(a + seq!['@'] + seq!['.'] + a),
        !a.contains('@') && !b.contains('@') && !b.contains('.') ==> !is_email(
            a + seq!['@'] + b + seq!['.'],
        ),
{
    let e = a + seq!['@'] + b + seq!['.'] + c;
    if a.len() > 0 && b.len() > 0 && c.len() > 0 {
        assert(is_parted(e, a.len() as int, (a.len() + 1 + b.len()) as int));
    }
    if is_email(s) {
        let (at, dot) = choose|at: int, dot: int| is_parted(s, at, dot);
        assert(s.contains(s[at]) && s.contains(s[dot]));
    }
    assert forall|k: int| 0 <= k < a.len() implies a.contains(#[trigger] a[k]) by {}
    assert forall|k: int| 0 <= k < b.len() implies b.contains(#[trigger] b[k]) by {}
    let f = seq!['@'] + b;
    if !b.contains('@') && !b.contains('.') && is_email(f) {
        let (at, dot) = choose|at: int, dot: int| is_parted(f, at, dot);
        assert(f[at] == b[at - 1]);
    }
    let g = a + seq!['@'] + seq!['.'] + a;
    let n = a.len() as int;
    if !a.contains('@') && !a.contains('.') && is_email(g) {
        let (at, dot) = choose|at: int, dot: int| is_parted(g, at, dot);
        if at < n {
            assert(g[at] == a[at]);
        } else if at > n + 1 {
            assert(g[at] == a[at - n - 2]);
        }
        assert(at == n);
        if dot > n + 1 {
            assert(g[dot] == a[dot - n - 2]);
        }
    }
    let h = a + seq!['@'] + b + seq!['.'];
    if !a.contains('@') && !b.contains('@') && !b.contains('.') && is_email(h) {
        let (at, dot) = choose|at: int, dot: int| is_parted(h, at, dot);
        if at < n {
            assert(h[at] == a[at]);
        } else if n < at < n + 1 + b.len() {
            assert(h[at] == b[at - n - 1]);
        }
        assert(at == n);
        if dot < n + 1 + b.len() {
            assert(h[dot] == b[dot - n - 1]);
        }
    }
}

/// Tells whether a text can be an email address.
pub fn is_valid_email(email: &str) -> (r: bool)
    ensures
        r == is_email(email@),
{
    let v: Vec<char> = chars_of(email);
    let n: usize = v.len();
    if n < 2 {
        return false;
    }
    let at: usize = find_char(&v, 1, '@');
    let mut dot: usize = n - 1;
    while dot > 0 && (dot == n - 1 || v[dot] != '.')
        invariant
            dot < n == v.len(),
            forall|k: int| dot < k < n - 1 ==> #[trigger] v@[k] != '.',
        decreases dot,
    {
        dot -= 1;
    }
    let r: bool = at < n && dot > at && dot - at > 1;
    proof {
        if r {
            assert(is_parted(v@, at as int, dot as int));
        }
        assert forall|i: int, j: int| is_parted(v@, i, j) implies r by {
            assert(at <= i);
            assert(j <= dot);
        }
    }
    r
}

/// What is wrong with the address and the password of a claim.
pub open spec fn claim_violations(email: Seq<char>, password: Seq<char>) -> Seq<ViolationView> {
    let first = if is_email(email) {
        Seq::empty()
    } else {
        seq![
            ViolationView {
                field_name: "claimServer.email"@,
                message: "must be a well-formed email address"@,
            },
        ]
    };
    if crate::text::is_blank(password) {
        first.push(
            ViolationView { field_name: "claimServer.password"@, message: "must not be blank"@ },
        )
    } else {
        first
    }
}

/// A claim is told of its address exactly if that is no address, and of its password exactly if that is
/// blank, and of nothing else.
pub proof fn claim_is_told_what_is_wrong(email: Seq<char>, password: Seq<char>)
    ensures
        ({
            let v = claim_violations(email, password);
            let told = |field: Seq<char>|
                exists|i: int| 0 <= i < v.len() && (#[trigger] v[i]).field_name == field;
            &&& told("claimServer.email"@) <==> !is_email(email)
            &&& told("claimServer.password"@) <==> crate::text::is_blank(password)
            &&& v.len() == 0 <==> is_email(email) && !crate::text::is_blank(password)
            &&& v.len() <= 2
        }),
{
    reveal_strlit("claimServer.email");
    reveal_strlit("claimServer.password");
    assert("claimServer.email"@.len() == 17 && "claimServer.password"@.len() == 20);
    let v = claim_violations(email, password);
    if !is_email(email) {
        assert(v[0].field_name == "claimServer.email"@);
    }
    if crate::text::is_blank(password) {
        assert(v[v.len() - 1].field_name == "claimServer.password"@);
    }
}

/// Lets a claim through if its address and password are acceptable and the server has no user yet.
pub fn check_claim(email: &str, password: &str, users: i64) -> (r: Result<(), ApiError>)
    ensures
        match r {
            Ok(_) => claim_violations(email@, password@).len() == 0 && users <= 0,
            Err(e) => if claim_violations(email@, password@).len() > 0 {
                e.deep_view() == ErrorView::Violations(claim_violations(email@, password@))
            } else {
                users > 0 && e.deep_view() == status_error(
                    400,
                    "This server has already been claimed"@,
                )
            },
        },
{
    let mut violations: Vec<Violation> = Vec::new();
    assert(violations.deep_view() =~= Seq::empty());
    if !is_valid_email(email) {
        violations.push(violation("claimServer.email", "must be a well-formed email address"));
        assert(violations.deep_view() =~= seq![violations[0].deep_view()]);
    }
    let ghost sofar = violations.deep_view();
    if blank(password) {
        let v: Violation = violation("claimServer.password", "must not be blank");
        violations.push(v);
        assert(violations.deep_view() =~= sofar.push(v.deep_view()));
    }
    assert(violations.deep_view().len() == violations.len());
    if violations.len() > 0 {
        return Err(ApiError::Violations(violations));
    }
    if users > 0 {
        Err(ApiError::bad_request("This server has already been claimed"))
    } else {
        Ok(())
    }
}

/// Whether `bcrypt::verify` accepts a password for a hash.
pub uninterp spec fn bcrypt_verifies(password: Seq<char>, hash: Seq<char>) -> bool;

/// `bcrypt::hash` with its default version: a hash with a salt of its own, which names its cost and
/// which `bcrypt::verify` accepts the password for, or the reason why none was made. The salt is
/// random, so nothing more is fixed.
#[verifier::external_body]
pub(crate) fn bcrypt_hash(password: &str, cost: u32) -> (r: Result<String, String>)
    requires
        4 <= cost <= 31,
    ensures
        match r {
            Ok(h) => h@.len() == 60 && h@.take(7) == "$2b$"@ + crate::text::padded(cost as nat, 2)
                + "$"@ && bcrypt_verifies(password@, h@),
            Err(_) => true,
        },
{
    bcrypt::hash(password, cost).map_err(|e| e.to_string())
}

/// A text has the form of a hash of cost ten.
pub open spec fn is_hash_of_cost_ten(h: Seq<char>) -> bool {
    h.len() == 60 && h.take(7) == "$2b$10$"@
}

pub(crate) proof fn lemma_cost_ten()
    ensures
        "$2b$"@ + crate::text::padded(10, 2) + "$"@ == "$2b$10$"@,
{
    reveal_strlit("$2b$");
    reveal_strlit("$");
    reveal_strlit("$2b$10$");
    reveal_with_fuel(crate::text::padded, 3);
    assert("$2b$"@ + crate::text::padded(10, 2) + "$"@ =~= "$2b$10$"@);
}

/// The user that a claim creates, given the hash of their password.
pub fn claiming_user(email: &str, hash: Result<String, String>) -> (r: Result<NewUser, ApiError>)
    ensures
        match (r, hash) {
            (Ok(u), Ok(h)) => u.email@ == email@ && u.password == h && u.roles@ == seq![
                UserRole::Admin,
                UserRole::FileDownload,
                UserRole::PageStreaming,
                UserRole::KoboSync,
                UserRole::KoreaderSync,
            ] && u.shared_all_libraries,
            (Err(e), Err(m)) => e.deep_view() == ErrorView::Internal(m@),
            _ => false,
        },
        r is Ok ==> forall|role: UserRole| #[trigger] r->Ok_0.roles@.contains(role),
{
    match hash {
        Ok(password) => {
            let mut roles: Vec<UserRole> = Vec::new();
            roles.push(UserRole::Admin);
            roles.push(UserRole::FileDownload);
            roles.push(UserRole::PageStreaming);
            roles.push(UserRole::KoboSync);
            roles.push(UserRole::KoreaderSync);
            assert(roles@[0] == UserRole::Admin && roles@[1] == UserRole::FileDownload && roles@[2]
                == UserRole::PageStreaming && roles@[3] == UserRole::KoboSync && roles@[4]
                == UserRole::KoreaderSync);
            Ok(NewUser { email: email.to_owned(), password, roles, shared_all_libraries: true })
        },
        Err(m) => Err(ApiError::Internal(m)),
    }
}

/// Claims a server: the user to create, whose password is only kept as a hash of cost ten. Without a
/// hash, which rests on the randomness that the machine gives, the server is at fault.
pub fn claim(email: &str, password: &str, users: i64) -> (r: Result<NewUser, ApiError>)
    ensures
        claim_violations(email@, password@).len() > 0 ==> r is Err && r->Err_0.deep_view()
            == ErrorView::Violations(claim_violations(email@, password@)),
        claim_violations(email@, password@).len() == 0 && users > 0 ==> r is Err
            && r->Err_0.deep_view() == status_error(400, "This server has already been claimed"@),
        claim_violations(email@, password@).len() == 0 && users <= 0 ==> match r {
            Ok(u) => {
                &&& u.email@ == email@
                &&& bcrypt_verifies(password@, u.password@)
                &&& is_hash_of_cost_ten(u.password@)
                &&& u.roles@ == seq![
                    UserRole::Admin,
                    UserRole::FileDownload,
                    UserRole::PageStreaming,
                    UserRole::KoboSync,
                    UserRole::KoreaderSync,
                ]
                &&& u.shared_all_libraries
            },
            Err(e) => e is Internal,
        },
        r is Ok ==> is_email(email@) && !crate::text::is_blank(password@) && users <= 0,
        r is Ok ==> forall|role: UserRole| #[trigger] r->Ok_0.roles@.contains(role),
{
    proof {
        claim_is_told_what_is_wrong(email@, password@);
        lemma_cost_ten();
    }
    match check_claim(email, password, users) {
        Ok(_) => claiming_user(email, bcrypt_hash(password, 10)),
        Err(e) => Err(e),
    }
}

} // verus!
