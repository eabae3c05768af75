//! Sessions in cookies.
use vstd::prelude::*;

use crate::text::{chars_of, find_char, split_at, string_of, text_eq, trim};

verus! {

/// The value of a cookie in one part of a header, if the part is about that cookie.
pub open spec fn cookie_part(part: Seq<char>, name: Seq<char>) -> Option<Seq<char>> {
    let pair = crate::text::trimmed(part);
    let eq = crate::text::first_at(pair, '=');
    if eq < pair.len() && pair.take(eq) == name {
        Some(pair.skip(eq + 1))
    } else {
        None
    }
}

/// The value in the first of these parts that is about the cookie.
pub open spec fn first_cookie(parts: Seq<Seq<char>>, name: Seq<char>) -> Option<Seq<char>>
    decreases parts.len(),
{
    if parts.len() == 0 {
        None
    } else {
        match cookie_part(parts[0], name) {
            Some(v) => Some(v),
            None => first_cookie(parts.drop_first(), name),
        }
    }
}

/// The value of a cookie in a header.
pub open spec fn cookie_in(header: Seq<char>, name: Seq<char>) -> Option<Seq<char>> {
    first_cookie(crate::text::split(header, ';'), name)
}

/// A cookie is read by its name from the part that sets it, whatever white space is round the part, and
/// from no part that sets another.
pub proof fn cookie_is_read_by_its_name(
    before: Seq<char>,
    name: Seq<char>,
    value: Seq<char>,
    after: Seq<char>,
    other: Seq<char>,
)
    requires
        crate::text::is_blank(before),
        crate::text::is_blank(after),
        name.len() > 0,
        !crate::text::is_space(name[0]),
        !name.contains('='),
        value.len() > 0 ==> !crate::text::is_space(value.last()),
    ensures
        cookie_part(before + (name + seq!['='] + value) + after, name) == Some(value),
        other != name ==> cookie_part(before + (name + seq!['='] + value) + after, other) is None,
{
    let pair = name + seq!['='] + value;
    assert(pair[0] == name[0]);
    if value.len() > 0 {
        assert(pair.last() == value.last());
    } else {
        assert(pair.last() == '=');
    }
    crate::text::trimming_keeps_the_text(before, pair, after);
    assert forall|k: int| 0 <= k < name.len() implies #[trigger] pair[k] != '=' by {
        assert(name.contains(name[k]));
    }
    crate::text::lemma_first_at_is(pair, '=', name.len() as int);
    assert(pair.take(name.len() as int) =~= name);
    assert(pair.skip(name.len() as int + 1) =~= value);
}

/// The first part of a header that sets a cookie decides, and a part without a value sets none.
pub proof fn first_cookie_of_a_name_is_read(part: Seq<char>, rest: Seq<char>, name: Seq<char>)
    requires
        !part.contains(';'),
    ensures
        cookie_in(part, name) == cookie_part(part, name),
        cookie_part(part, name) is Some ==> cookie_in(part + seq![';'] + rest, name) == cookie_part(
            part,
            name,
        ),
        cookie_part(part, name) is None ==> cookie_in(part + seq![';'] + rest, name) == cookie_in(
            rest,
            name,
        ),
        !part.contains('=') ==> cookie_part(part, name) is None,
{
    crate::text::parts_stand_between_separators(part, ';', rest);
    let parts = seq![part] + crate::text::split(rest, ';');
    assert(parts.drop_first() =~= crate::text::split(rest, ';'));
    assert(seq![part].drop_first() =~= Seq::<Seq<char>>::empty());
    assert(first_cookie(Seq::<Seq<char>>::empty(), name) is None);
    if !part.contains('=') {
        let t = crate::text::trimmed(part);
        crate::text::lemma_trimmed_is_part(part);
        crate::text::lemma_first_at(t, '=');
        let eq = crate::text::first_at(t, '=');
        if eq < t.len() {
            assert(t.contains(t[eq]));
        }
    }
}

fn read_cookie_part(part: &str, name: &str) -> (r: Option<String>)
    ensures
        r.deep_view() == cookie_part(part@, name@),
{
    let pair: Vec<char> = chars_of(trim(part).as_str());
    let eq: usize = find_char(&pair, 0, '=');
    assert(pair@.skip(0) =~= pair@);
    if eq >= pair.len() {
        return None;
    }
    assert(pair@.subrange(0, eq as int) =~= pair@.take(eq as int));
    assert(pair@.subrange(eq as int + 1, pair@.len() as int) =~= pair@.skip(eq as int + 1));
    if text_eq(string_of(&pair, 0, eq).as_str(), name) {
        Some(string_of(&pair, eq + 1, pair.len()))
    } else {
        None
    }
}

/// Reads the value of a cookie from a header.
pub fn read_cookie(header: &str, name: &str) -> (r: Option<String>)
    ensures
        r.deep_view() == cookie_in(header@, name@),
{
    let parts: Vec<String> = split_at(header, ';');
    let ghost all = parts.deep_view();
    let mut i: usize = 0;
    assert(all.skip(0) =~= all);
    while i < parts.len()
        invariant
            i <= parts.len(),
            all == parts.deep_view(),
            all == crate::text::split(header@, ';'),
            first_cookie(all, name@) == first_cookie(all.skip(i as int), name@),
        decreases parts.len() - i,
    {
        assert(all.skip(i as int)[0] == parts@[i as int]@);
        assert(all.skip(i as int).drop_first() =~= all.skip(i as int + 1));
        match read_cookie_part(parts[i].as_str(), name) {
            Some(v) => {
                return Some(v);
            },
            None => {},
        }
        i += 1;
    }
    None
}

/// The session that a request belongs to: the one named by its own header, else the one in its
/// cookie.
pub fn session_of(session_header: &Option<String>, cookies: &Option<String>, cookie_name: &str) -> (r: Option<
    String,
>)
    ensures
        r.deep_view() == (match (session_header.deep_view(), cookies.deep_view()) {
            (Some(id), _) => Some(id),
            (None, Some(header)) => cookie_in(header, cookie_name@),
            (None, None) => None,
        }),
{
    match session_header {
        Some(id) => Some(id.clone()),
        None => match cookies {
            Some(header) => read_cookie(header.as_str(), cookie_name),
            None => None,
        },
    }
}

/// The cookie that ends a session, as it is sent.
pub open spec fn expired_cookie_text(cookie_name: Seq<char>) -> Seq<char> {
    cookie_name + "=; Path=/; Max-Age=0; HttpOnly; SameSite=Lax"@
}

/// The cookie that ends a session lives no longer.
pub proof fn expired_cookie_is_over(cookie_name: Seq<char>)
    ensures
        crate::text::contains_text(expired_cookie_text(cookie_name), "Max-Age=0;"@),
        crate::text::contains_text(expired_cookie_text(cookie_name), "Path=/;"@),
{
    reveal_strlit("=; Path=/; Max-Age=0; HttpOnly; SameSite=Lax");
    reveal_strlit("Max-Age=0;");
    reveal_strlit("Path=/;");
    let s = expired_cookie_text(cookie_name);
    let n = cookie_name.len() as int;
    assert(s.subrange(n + 11, n + 21) =~= "Max-Age=0;"@);
    assert(crate::text::occurs_at(s, "Max-Age=0;"@, n + 11));
    assert(s.subrange(n + 3, n + 10) =~= "Path=/;"@);
    assert(crate::text::occurs_at(s, "Path=/;"@, n + 3));
}

/// The cookie that ends a session.
pub fn expired_cookie(cookie_name: &str) -> (r: String)
    ensures
        r@ == expired_cookie_text(cookie_name@),
{
    let mut r: String = cookie_name.to_owned();
    r.append("=; Path=/; Max-Age=0; HttpOnly; SameSite=Lax");
    r
}

} // verus!
