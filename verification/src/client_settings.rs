//! Settings that clients store on the server.
use vstd::prelude::*;

use crate::error::{one_violation, ApiError};
use crate::text::{char_is_digit, char_is_lower, chars_of, split_at};

verus! {

/// The pattern that the key of a setting matches.
pub const KEY_PATTERN_MESSAGE: &'static str =
    "must match \"^[a-z](?:[a-z0-9_-]*[a-z0-9])*(?:\\.[a-z0-9](?:[a-z0-9_-]*[a-z0-9])*)*$\"";

/// A small letter or a digit.
pub open spec fn is_key_end(c: char) -> bool {
    crate::text::is_lower(c) || crate::text::is_digit(c)
}

/// One part of a key: small letters, digits, `_` and `-`, with a letter or a digit at both ends, and
/// a letter at the very start of the key.
pub open spec fn is_key_part(s: Seq<char>, first: bool) -> bool {
    &&& s.len() > 0
    &&& if first {
        crate::text::is_lower(s[0])
    } else {
        is_key_end(s[0])
    }
    &&& is_key_end(s.last())
    &&& forall|i: int|
        0 <= i < s.len() ==> is_key_end(#[trigger] s[i]) || s[i] == '_' || s[i] == '-'
}

/// A key: parts with dots between them.
pub open spec fn is_key(s: Seq<char>) -> bool {
    let parts = crate::text::split(s, '.');
    forall|i: int| 0 <= i < parts.len() ==> is_key_part(#[trigger] parts[i], i == 0)
}

/// A part of a key is made of small letters, digits, `_` and `-`, of which neither sign stands at an end;
/// the first part starts with a letter. Whatever goes on in that way is still a part.
pub proof fn key_part_is_of_small_letters(s: Seq<char>, first: bool, more: Seq<char>, i: int)
    requires
        is_key_part(s, first),
    ensures
        0 <= i < s.len() ==> 'a' <= s[i] <= 'z' || '0' <= s[i] <= '9' || s[i] == '_' || s[i] == '-',
        'a' <= s[0] <= 'z' || (!first && '0' <= s[0] <= '9'),
        'a' <= s.last() <= 'z' || '0' <= s.last() <= '9',
        more.len() > 0 && ('a' <= more.last() <= 'z' || '0' <= more.last() <= '9') && (forall|k: int|
            0 <= k < more.len() ==> 'a' <= (#[trigger] more[k]) <= 'z' || '0' <= more[k] <= '9'
                || more[k] == '_' || more[k] == '-') ==> is_key_part(s + more, first),
{
    if more.len() > 0 && ('a' <= more.last() <= 'z' || '0' <= more.last() <= '9') && (forall|k: int|
        0 <= k < more.len() ==> 'a' <= (#[trigger] more[k]) <= 'z' || '0' <= more[k] <= '9' || more[k]
            == '_' || more[k] == '-') {
        let t = s + more;
        assert(t[0] == s[0]);
        assert(t.last() == more.last());
        assert forall|k: int| 0 <= k < t.len() implies is_key_end(#[trigger] t[k]) || t[k] == '_'
            || t[k] == '-' by {
            if k < s.len() {
                assert(t[k] == s[k]);
            } else {
                assert(t[k] == more[k - s.len()]);
            }
        }
    }
}

/// A small letter is a key, and a digit may start any part but the first.
pub proof fn shortest_keys(c: char)
    ensures
        is_key_part(seq![c], true) <==> 'a' <= c <= 'z',
        is_key_part(seq![c], false) <==> 'a' <= c <= 'z' || '0' <= c <= '9',
        !is_key_part(Seq::empty(), true),
        !is_key_part(Seq::empty(), false),
{
    let s = seq![c];
    assert(s[0] == c && s.last() == c);
}

/// A key is made of its parts, with dots between them, and each part counts.
pub proof fn key_is_made_of_its_parts(part: Seq<char>, rest: Seq<char>)
    requires
        !part.contains('.'),
    ensures
        is_key(part) <==> is_key_part(part, true),
        is_key(part + seq!['.'] + rest) <==> is_key_part(part, true) && (forall|i: int|
            0 <= i < crate::text::split(rest, '.').len() ==> is_key_part(
                #[trigger] crate::text::split(rest, '.')[i],
                false,
            )),
{
    crate::text::parts_stand_between_separators(part, '.', rest);
    let others = crate::text::split(rest, '.');
    let one = crate::text::split(part, '.');
    assert(one[0] == part);
    let key = part + seq!['.'] + rest;
    let parts = crate::text::split(key, '.');
    assert(parts[0] == part);
    if is_key(key) {
        assert forall|i: int| 0 <= i < others.len() implies is_key_part(#[trigger] others[i], false) by {
            assert(parts[i + 1] == others[i]);
        }
    }
    if is_key_part(part, true) && (forall|i: int|
        0 <= i < others.len() ==> is_key_part(#[trigger] others[i], false)) {
        assert forall|i: int| 0 <= i < parts.len() implies is_key_part(#[trigger] parts[i], i == 0) by {
            if i > 0 {
                assert(parts[i] == others[i - 1]);
            }
        }
    }
}

fn key_part(s: &str, first: bool) -> (r: bool)
    ensures
        r == is_key_part(s@, first),
{
    let v: Vec<char> = chars_of(s);
    let n: usize = v.len();
    if n == 0 {
        return false;
    }
    if !char_is_lower(v[0]) && (first || !char_is_digit(v[0])) {
        return false;
    }
    if !char_is_lower(v[n - 1]) && !char_is_digit(v[n - 1]) {
        return false;
    }
    let mut i: usize = 0;
    while i < n
        invariant
            i <= n == v.len(),
            v@ == s@,
            forall|k: int|
                0 <= k < i ==> is_key_end(#[trigger] v@[k]) || v@[k] == '_' || v@[k] == '-',
        decreases n - i,
    {
        let c: char = v[i];
        if !char_is_lower(c) && !char_is_digit(c) && c != '_' && c != '-' {
            return false;
        }
        i += 1;
    }
    true
}

/// Whether a text is the key of a setting.
pub fn valid_key(key: &str) -> (r: bool)
    ensures
        r == is_key(key@),
{
    let parts: Vec<String> = split_at(key, '.');
    let ghost all = parts.deep_view();
    let mut i: usize = 0;
    while i < parts.len()
        invariant
            i <= parts.len(),
            all == parts.deep_view(),
            all == crate::text::split(key@, '.'),
            forall|k: int| 0 <= k < i ==> is_key_part(#[trigger] all[k], k == 0),
        decreases parts.len() - i,
    {
        assert(all[i as int] == parts@[i as int]@);
        if !key_part(parts[i].as_str(), i == 0) {
            return false;
        }
        i += 1;
    }
    true
}

/// The keys before index `n` are keys.
pub open spec fn keys_before(keys: Seq<Seq<char>>, n: int) -> bool {
    forall|k: int| 0 <= k < n ==> is_key(#[trigger] keys[k])
}

/// Refuses the first key that is none.
pub fn check_keys(keys: &Vec<String>) -> (r: Result<(), ApiError>)
    ensures
        match r {
            Ok(_) => keys_before(keys.deep_view(), keys.len() as int),
            Err(e) => exists|i: int|
                0 <= i < keys.len() && !is_key(#[trigger] keys.deep_view()[i]) && keys_before(
                    keys.deep_view(),
                    i,
                ) && e.deep_view() == one_violation(keys.deep_view()[i], KEY_PATTERN_MESSAGE@),
        },
{
    let mut i: usize = 0;
    while i < keys.len()
        invariant
            i <= keys.len(),
            keys_before(keys.deep_view(), i as int),
        decreases keys.len() - i,
    {
        assert(keys.deep_view()[i as int] == keys@[i as int]@);
        if !valid_key(keys[i].as_str()) {
            return Err(ApiError::one_violation(keys[i].as_str(), KEY_PATTERN_MESSAGE));
        }
        i += 1;
    }
    Ok(())
}

/// A setting to be stored.
#[derive(Debug, PartialEq, Eq)]
pub struct SettingUpdate {
    pub key: String,
    pub value: String,
}

/// How many settings are stored before the first whose value is empty.
pub open spec fn stored_before_empty(settings: Seq<SettingUpdate>) -> int
    decreases settings.len(),
{
    if settings.len() == 0 || settings[0].value@.len() == 0 {
        0
    } else {
        1 + stored_before_empty(settings.drop_first())
    }
}

/// What comes of a request to store settings.
#[derive(Debug, PartialEq, Eq)]
pub struct StoredSettings {
    /// How many of the settings are stored, in their order.
    pub stored: usize,
    /// What the request is answered when they are.
    pub answer: Result<(), ApiError>,
}

/// Goes through settings in order and stores each, up to the first whose value is empty, which the
/// request is refused for.
pub fn store_settings(settings: &Vec<SettingUpdate>) -> (r: StoredSettings)
    ensures
        r.stored == stored_before_empty(settings@),
        r.stored <= settings.len(),
        match r.answer {
            Ok(_) => r.stored == settings.len(),
            Err(e) => r.stored < settings.len() && e.deep_view() == one_violation(
                settings@[r.stored as int].key@,
                "must not be blank"@,
            ),
        },
{
    let mut i: usize = 0;
    assert(settings@.skip(0) =~= settings@);
    while i < settings.len()
        invariant
            i <= settings.len(),
            stored_before_empty(settings@) == i + stored_before_empty(settings@.skip(i as int)),
        decreases settings.len() - i,
    {
        assert(settings@.skip(i as int)[0] == settings@[i as int]);
        assert(settings@.skip(i as int).drop_first() =~= settings@.skip(i as int + 1));
        if settings[i].value.as_str().is_empty() {
            return StoredSettings {
                stored: i,
                answer: Err(ApiError::one_violation(settings[i].key.as_str(), "must not be blank")),
            };
        }
        i += 1;
    }
    StoredSettings { stored: i, answer: Ok(()) }
}

/// Settings are stored up to the first without a value: all before it have one.
pub proof fn settings_are_stored_up_to_the_first_empty(settings: Seq<SettingUpdate>)
    ensures
        0 <= stored_before_empty(settings) <= settings.len(),
        forall|i: int|
            0 <= i < stored_before_empty(settings) ==> (#[trigger] settings[i]).value@.len() > 0,
        stored_before_empty(settings) < settings.len() ==> settings[stored_before_empty(
            settings,
        )].value@.len() == 0,
    decreases settings.len(),
{
    if settings.len() > 0 && settings[0].value@.len() > 0 {
        let rest = settings.drop_first();
        settings_are_stored_up_to_the_first_empty(rest);
        assert forall|i: int| 0 <= i < stored_before_empty(settings) implies (
        #[trigger] settings[i]).value@.len() > 0 by {
            if i > 0 {
                assert(rest[i - 1] == settings[i]);
            }
        }
        if stored_before_empty(rest) < rest.len() {
            assert(rest[stored_before_empty(rest)] == settings[stored_before_empty(settings)]);
        }
    }
}

} // verus!
