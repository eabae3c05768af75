//! Atom feeds, as they are written for OPDS clients.
use vstd::prelude::*;

use crate::datetime::DateTime;
use crate::text::{chars_of, push_decimal, push_decimal_i64, push_padded};

verus! {

/// The namespace of Atom.
pub const ATOM_NS: &'static str = "http://www.w3.org/2005/Atom";

/// The namespace of page streaming.
pub const PSE_NS: &'static str = "http://vaemendis.net/opds-pse/ns";

/// The media type of a feed to navigate by.
pub const TYPE_NAV: &'static str = "application/atom+xml;profile=opds-catalog;kind=navigation";

/// The media type of a feed of books.
pub const TYPE_ACQ: &'static str = "application/atom+xml;profile=opds-catalog;kind=acquisition";

/// The relation of a picture.
pub const REL_IMAGE: &'static str = "http://opds-spec.org/image";

/// The relation of a small picture.
pub const REL_IMAGE_THUMBNAIL: &'static str = "http://opds-spec.org/image/thumbnail";

/// The relation of a book's file.
pub const REL_ACQUISITION: &'static str = "http://opds-spec.org/acquisition";

/// The relation of a book's pages.
pub const REL_PAGE_STREAMING: &'static str = "http://vaemendis.net/opds-pse/stream";

// ---- the model ----

/// A link. Only a link to a book's pages has a count of them, and how far they were read.
#[derive(Debug, PartialEq, Eq)]
pub struct AtomLink {
    pub type_: String,
    pub rel: String,
    pub href: String,
    pub pse_count: Option<i32>,
    pub pse_last_read: Option<i32>,
    pub pse_last_read_date: Option<DateTime>,
}

/// An [`AtomLink`] by its texts.
#[verifier::ext_equal]
pub struct LinkView {
    pub type_: Seq<char>,
    pub rel: Seq<char>,
    pub href: Seq<char>,
    pub pse_count: Option<i32>,
    pub pse_last_read: Option<i32>,
    pub pse_last_read_date: Option<DateTime>,
}

impl DeepView for AtomLink {
    type V = LinkView;

    open spec fn deep_view(&self) -> LinkView {
        LinkView {
            type_: self.type_@,
            rel: self.rel@,
            href: self.href@,
            pse_count: self.pse_count,
            pse_last_read: self.pse_last_read,
            pse_last_read_date: self.pse_last_read_date,
        }
    }
}

/// A link that has nothing to do with pages.
pub open spec fn plain_link(type_: Seq<char>, rel: Seq<char>, href: Seq<char>) -> LinkView {
    LinkView {
        type_,
        rel,
        href,
        pse_count: None,
        pse_last_read: None,
        pse_last_read_date: None,
    }
}

/// A link to another feed.
pub open spec fn nav_link(rel: Seq<char>, href: Seq<char>) -> LinkView {
    plain_link(TYPE_NAV@, rel, href)
}

impl AtomLink {
    /// Links to something that has nothing to do with pages.
    pub fn plain(type_: &str, rel: &str, href: String) -> (r: AtomLink)
        ensures
            r.deep_view() == plain_link(type_@, rel@, href@),
    {
        AtomLink {
            type_: type_.to_owned(),
            rel: rel.to_owned(),
            href,
            pse_count: None,
            pse_last_read: None,
            pse_last_read_date: None,
        }
    }

    /// Links to another feed.
    pub fn nav(rel: &str, href: String) -> (r: AtomLink)
        ensures
            r.deep_view() == nav_link(rel@, href@),
    {
        AtomLink::plain(TYPE_NAV, rel, href)
    }

    /// Links to a picture.
    pub fn image(media_type: &str, href: String) -> (r: AtomLink)
        ensures
            r.deep_view() == plain_link(media_type@, REL_IMAGE@, href@),
    {
        AtomLink::plain(media_type, REL_IMAGE, href)
    }

    /// Links to a small picture.
    pub fn image_thumbnail(media_type: &str, href: String) -> (r: AtomLink)
        ensures
            r.deep_view() == plain_link(media_type@, REL_IMAGE_THUMBNAIL@, href@),
    {
        AtomLink::plain(media_type, REL_IMAGE_THUMBNAIL, href)
    }

    /// Links to a file, of no known type where none is given.
    pub fn file_acquisition(media_type: &Option<String>, href: String) -> (r: AtomLink)
        ensures
            r.deep_view() == plain_link(
                match media_type {
                    Some(t) => t@,
                    None => "application/octet-stream"@,
                },
                REL_ACQUISITION@,
                href@,
            ),
    {
        match media_type {
            Some(t) => AtomLink::plain(t.as_str(), REL_ACQUISITION, href),
            None => AtomLink::plain("application/octet-stream", REL_ACQUISITION, href),
        }
    }

    /// Links to the pages of a book, with the page that was read last where there is one.
    pub fn page_streaming(
        media_type: &str,
        href: String,
        count: i32,
        last_read: Option<i32>,
        last_read_date: Option<DateTime>,
    ) -> (r: AtomLink)
        ensures
            r.deep_view() == (LinkView {
                type_: media_type@,
                rel: REL_PAGE_STREAMING@,
                href: href@,
                pse_count: Some(count),
                pse_last_read: last_read,
                pse_last_read_date: last_read_date,
            }),
    {
        AtomLink {
            type_: media_type.to_owned(),
            rel: REL_PAGE_STREAMING.to_owned(),
            href,
            pse_count: Some(count),
            pse_last_read: last_read,
            pse_last_read_date: last_read_date,
        }
    }
}

/// An entry of a feed, with its authors and links. One that leads to another feed has no authors and
/// one link.
#[derive(Debug, PartialEq, Eq)]
pub struct AtomEntry {
    pub title: String,
    pub updated: String,
    pub id: String,
    pub content: String,
    pub authors: Vec<String>,
    pub links: Vec<AtomLink>,
}

/// An [`AtomEntry`] by its texts.
#[verifier::ext_equal]
pub struct EntryView {
    pub title: Seq<char>,
    pub updated: Seq<char>,
    pub id: Seq<char>,
    pub content: Seq<char>,
    pub authors: Seq<Seq<char>>,
    pub links: Seq<LinkView>,
}

impl DeepView for AtomEntry {
    type V = EntryView;

    open spec fn deep_view(&self) -> EntryView {
        EntryView {
            title: self.title@,
            updated: self.updated@,
            id: self.id@,
            content: self.content@,
            authors: self.authors.deep_view(),
            links: self.links.deep_view(),
        }
    }
}

/// An entry that leads to another feed.
pub open spec fn nav_entry(
    title: Seq<char>,
    updated: Seq<char>,
    id: Seq<char>,
    content: Seq<char>,
    href: Seq<char>,
) -> EntryView {
    EntryView {
        title,
        updated,
        id,
        content,
        authors: Seq::empty(),
        links: seq![nav_link("subsection"@, href)],
    }
}

/// An entry to navigate by leads to one feed further down, and to nothing else; nobody wrote it.
pub proof fn entry_leads_further_down(
    title: Seq<char>,
    updated: Seq<char>,
    id: Seq<char>,
    content: Seq<char>,
    href: Seq<char>,
)
    ensures
        nav_entry(title, updated, id, content, href).title == title,
        nav_entry(title, updated, id, content, href).updated == updated,
        nav_entry(title, updated, id, content, href).id == id,
        nav_entry(title, updated, id, content, href).content == content,
        nav_entry(title, updated, id, content, href).authors.len() == 0,
        nav_entry(title, updated, id, content, href).links.len() == 1,
        nav_entry(title, updated, id, content, href).links[0].href == href,
        nav_entry(title, updated, id, content, href).links[0].rel == "subsection"@,
        nav_entry(title, updated, id, content, href).links[0].type_ == TYPE_NAV@,
        nav_entry(title, updated, id, content, href).links[0].pse_count is None,
{
}

impl AtomEntry {
    /// An entry that leads to another feed.
    pub fn nav(title: &str, updated: &str, id: &str, content: &str, href: String) -> (r: AtomEntry)
        ensures
            r.deep_view() == nav_entry(title@, updated@, id@, content@, href@),
    {
        let mut links: Vec<AtomLink> = Vec::new();
        links.push(AtomLink::nav("subsection", href));
        assert(links.deep_view() =~= seq![links[0].deep_view()]);
        let authors: Vec<String> = Vec::new();
        assert(authors.deep_view() =~= Seq::<Seq<char>>::empty());
        AtomEntry {
            title: title.to_owned(),
            updated: updated.to_owned(),
            id: id.to_owned(),
            content: content.to_owned(),
            authors,
            links,
        }
    }
}

/// A feed.
#[derive(Debug, PartialEq, Eq)]
pub struct Feed {
    pub id: String,
    pub title: String,
    pub updated: String,
    pub entries: Vec<AtomEntry>,
    pub links: Vec<AtomLink>,
}

/// A [`Feed`] by its texts.
#[verifier::ext_equal]
pub struct FeedView {
    pub id: Seq<char>,
    pub title: Seq<char>,
    pub updated: Seq<char>,
    pub entries: Seq<EntryView>,
    pub links: Seq<LinkView>,
}

impl DeepView for Feed {
    type V = FeedView;

    open spec fn deep_view(&self) -> FeedView {
        FeedView {
            id: self.id@,
            title: self.title@,
            updated: self.updated@,
            entries: self.entries.deep_view(),
            links: self.links.deep_view(),
        }
    }
}

// ---- escaping ----

/// How a character is written: in text, and in an attribute, which keeps its white space.
pub open spec fn escaped_char(c: char, attribute: bool) -> Seq<char> {
    if c == '&' {
        "&amp;"@
    } else if c == '<' {
        "&lt;"@
    } else if c == '>' {
        "&gt;"@
    } else if attribute && c == '"' {
        "&quot;"@
    } else if attribute && c == '\n' {
        "&#xA;"@
    } else if attribute && c == '\r' {
        "&#xD;"@
    } else if attribute && c == '\t' {
        "&#x9;"@
    } else {
        seq![c]
    }
}

/// How a text is written.
pub open spec fn escaped(s: Seq<char>, attribute: bool) -> Seq<char>
    decreases s.len(),
{
    if s.len() == 0 {
        Seq::empty()
    } else {
        escaped(s.drop_last(), attribute) + escaped_char(s.last(), attribute)
    }
}

fn push_escaped(out: &mut String, s: &str, attribute: bool)
    ensures
        final(out)@ == old(out)@ + escaped(s@, attribute),
{
    let v: Vec<char> = chars_of(s);
    let ghost start = out@;
    let mut i: usize = 0;
    assert(out@ =~= start + escaped(v@.take(0), attribute));
    while i < v.len()
        invariant
            i <= v.len(),
            out@ == start + escaped(v@.take(i as int), attribute),
        decreases v.len() - i,
    {
        let c: char = v[i];
        let ghost before = out@;
        assert(v@.take(i as int + 1).drop_last() =~= v@.take(i as int));
        if c == '&' {
            out.append("&amp;");
        } else if c == '<' {
            out.append("&lt;");
        } else if c == '>' {
            out.append("&gt;");
        } else if attribute && c == '"' {
            out.append("&quot;");
        } else if attribute && c == '\n' {
            out.append("&#xA;");
        } else if attribute && c == '\r' {
            out.append("&#xD;");
        } else if attribute && c == '\t' {
            out.append("&#x9;");
        } else {
            out.push(c);
        }
        assert(out@ =~= before + escaped_char(c, attribute));
        assert(out@ =~= start + escaped(v@.take(i as int + 1), attribute));
        i += 1;
    }
    assert(v@.take(v@.len() as int) =~= v@);
}

/// Writes a text as the content of an element.
pub fn esc_text(s: &str) -> (r: String)
    ensures
        r@ == escaped(s@, false),
{
    let mut r: String = String::new();
    push_escaped(&mut r, s, false);
    assert(r@ =~= escaped(s@, false));
    r
}

/// Writes a text as the value of an attribute.
pub fn esc_attr(s: &str) -> (r: String)
    ensures
        r@ == escaped(s@, true),
{
    let mut r: String = String::new();
    push_escaped(&mut r, s, true);
    assert(r@ =~= escaped(s@, true));
    r
}

/// An escaped text cannot open or close a tag, and in an attribute it cannot end the value.
pub proof fn escaped_text_is_no_markup(s: Seq<char>, attribute: bool)
    ensures
        !escaped(s, attribute).contains('<'),
        !escaped(s, attribute).contains('>'),
        attribute ==> !escaped(s, attribute).contains('"'),
    decreases s.len(),
{
    if s.len() > 0 {
        escaped_text_is_no_markup(s.drop_last(), attribute);
        reveal_strlit("&amp;");
        reveal_strlit("&lt;");
        reveal_strlit("&gt;");
        reveal_strlit("&quot;");
        reveal_strlit("&#xA;");
        reveal_strlit("&#xD;");
        reveal_strlit("&#x9;");
        let init = escaped(s.drop_last(), attribute);
        let last = escaped_char(s.last(), attribute);
        assert forall|i: int| 0 <= i < last.len() implies #[trigger] last[i] != '<' && last[i] != '>'
            && (attribute ==> last[i] != '"') by {}
        assert forall|i: int| 0 <= i < (init + last).len() implies #[trigger] (init + last)[i] != '<'
            && (init + last)[i] != '>' && (attribute ==> (init + last)[i] != '"') by {
            if i < init.len() {
                assert((init + last)[i] == init[i]);
                assert(init.contains(init[i]));
            } else {
                assert((init + last)[i] == last[i - init.len()]);
            }
        }
    }
}

/// What a reader of XML takes a text for: each entity for its character.
pub open spec fn unescaped(s: Seq<char>) -> Seq<char>
    decreases s.len(),
{
    if s.len() == 0 {
        Seq::empty()
    } else if crate::text::occurs_at(s, "&amp;"@, 0) && s.len() >= 5 {
        seq!['&'] + unescaped(s.skip(5))
    } else if crate::text::occurs_at(s, "&lt;"@, 0) && s.len() >= 4 {
        seq!['<'] + unescaped(s.skip(4))
    } else if crate::text::occurs_at(s, "&gt;"@, 0) && s.len() >= 4 {
        seq!['>'] + unescaped(s.skip(4))
    } else if crate::text::occurs_at(s, "&quot;"@, 0) && s.len() >= 6 {
        seq!['"'] + unescaped(s.skip(6))
    } else if crate::text::occurs_at(s, "&#xA;"@, 0) && s.len() >= 5 {
        seq!['\n'] + unescaped(s.skip(5))
    } else if crate::text::occurs_at(s, "&#xD;"@, 0) && s.len() >= 5 {
        seq!['\r'] + unescaped(s.skip(5))
    } else if crate::text::occurs_at(s, "&#x9;"@, 0) && s.len() >= 5 {
        seq!['\t'] + unescaped(s.skip(5))
    } else {
        seq![s[0]] + unescaped(s.skip(1))
    }
}

proof fn lemma_escaped_first(s: Seq<char>, attribute: bool)
    requires
        s.len() > 0,
    ensures
        escaped(s, attribute) == escaped_char(s[0], attribute) + escaped(s.drop_first(), attribute),
    decreases s.len(),
{
    if s.len() == 1 {
        assert(s.drop_last() =~= Seq::<char>::empty());
        assert(s.drop_first() =~= Seq::<char>::empty());
        assert(escaped(s, attribute) =~= escaped_char(s[0], attribute) + escaped(
            s.drop_first(),
            attribute,
        ));
    } else {
        lemma_escaped_first(s.drop_last(), attribute);
        assert(s.drop_last().drop_first() =~= s.drop_first().drop_last());
        assert(s.drop_last()[0] == s[0]);
        assert(escaped(s, attribute) =~= escaped_char(s[0], attribute) + escaped(
            s.drop_first(),
            attribute,
        ));
    }
}

proof fn lemma_unescaped_first(c: char, attribute: bool, rest: Seq<char>)
    ensures
        unescaped(escaped_char(c, attribute) + rest) == seq![c] + unescaped(rest),
{
    reveal_strlit("&amp;");
    reveal_strlit("&lt;");
    reveal_strlit("&gt;");
    reveal_strlit("&quot;");
    reveal_strlit("&#xA;");
    reveal_strlit("&#xD;");
    reveal_strlit("&#x9;");
    let e = escaped_char(c, attribute);
    let s = e + rest;
    let n = e.len() as int;
    assert(s.subrange(0, n) =~= e);
    assert(s.skip(n) =~= rest);
    assert(s[0] == e[0]);
    if e == seq![c] {
        assert(c != '&');
        assert(crate::text::occurs_at(s, "&amp;"@, 0) ==> s.subrange(0, 5)[0] == s[0]);
        assert(crate::text::occurs_at(s, "&lt;"@, 0) ==> s.subrange(0, 4)[0] == s[0]);
        assert(crate::text::occurs_at(s, "&gt;"@, 0) ==> s.subrange(0, 4)[0] == s[0]);
        assert(crate::text::occurs_at(s, "&quot;"@, 0) ==> s.subrange(0, 6)[0] == s[0]);
        assert(crate::text::occurs_at(s, "&#xA;"@, 0) ==> s.subrange(0, 5)[0] == s[0]);
        assert(crate::text::occurs_at(s, "&#xD;"@, 0) ==> s.subrange(0, 5)[0] == s[0]);
        assert(crate::text::occurs_at(s, "&#x9;"@, 0) ==> s.subrange(0, 5)[0] == s[0]);
    } else {
        assert(s[1] == e[1]);
        assert(crate::text::occurs_at(s, "&amp;"@, 0) ==> s.subrange(0, 5)[1] == s[1]);
        assert(crate::text::occurs_at(s, "&lt;"@, 0) ==> s.subrange(0, 4)[1] == s[1]);
        assert(crate::text::occurs_at(s, "&gt;"@, 0) ==> s.subrange(0, 4)[1] == s[1]);
        assert(crate::text::occurs_at(s, "&quot;"@, 0) ==> s.subrange(0, 6)[1] == s[1]);
        assert(s[3] == e[3]);
        assert(crate::text::occurs_at(s, "&#xA;"@, 0) ==> s.subrange(0, 5)[3] == s[3]
            && s.subrange(0, 5)[1] == s[1]);
        assert(crate::text::occurs_at(s, "&#xD;"@, 0) ==> s.subrange(0, 5)[3] == s[3]
            && s.subrange(0, 5)[1] == s[1]);
        assert(crate::text::occurs_at(s, "&#x9;"@, 0) ==> s.subrange(0, 5)[3] == s[3]
            && s.subrange(0, 5)[1] == s[1]);
    }
}

/// A reader of XML gets back the text that was written.
pub proof fn escaped_text_is_read_back(s: Seq<char>, attribute: bool)
    ensures
        unescaped(escaped(s, attribute)) == s,
    decreases s.len(),
{
    if s.len() > 0 {
        lemma_escaped_first(s, attribute);
        escaped_text_is_read_back(s.drop_first(), attribute);
        lemma_unescaped_first(s[0], attribute, escaped(s.drop_first(), attribute));
        assert(seq![s[0]] + s.drop_first() =~= s);
    } else {
        assert(unescaped(escaped(s, attribute)) =~= s);
    }
}

// ---- writing ----

/// An element with a text.
pub open spec fn element(name: Seq<char>, value: Seq<char>) -> Seq<char> {
    "<"@ + name + ">"@ + escaped(value, false) + "</"@ + name + ">"@
}

fn push_el(out: &mut String, name: &str, value: &str)
    ensures
        final(out)@ == old(out)@ + element(name@, value@),
{
    let ghost start = out@;
    out.append("<");
    out.append(name);
    out.append(">");
    push_escaped(out, value, false);
    out.append("</");
    out.append(name);
    out.append(">");
    assert(out@ =~= start + element(name@, value@));
}

/// A number with zeros in front, up to a number of digits at least.
pub open spec fn at_least_digits(n: nat, width: nat) -> Seq<char> {
    if crate::text::decimal(n).len() >= width {
        crate::text::decimal(n)
    } else {
        crate::text::padded(n, width)
    }
}

/// A year with four places, of which the sign takes one.
pub open spec fn year_text(year: int) -> Seq<char> {
    if year < 0 {
        seq!['-'] + at_least_digits((-year) as nat, 3)
    } else {
        at_least_digits(year as nat, 4)
    }
}

/// A point in time to the second, as a time in UTC.
pub open spec fn utc_second(d: DateTime) -> Seq<char> {
    year_text(d.date.year as int) + "-"@ + at_least_digits(d.date.month as nat, 2) + "-"@
        + at_least_digits(d.date.day as nat, 2) + "T"@ + at_least_digits(d.hour as nat, 2) + ":"@
        + at_least_digits(d.minute as nat, 2) + ":"@ + at_least_digits(d.second as nat, 2) + "Z"@
}

/// A time is written with its year, month, day, hour, minute and second, each at its place.
pub proof fn written_time_is_read_back(d: DateTime)
    requires
        0 <= d.date.year <= 9999,
        d.date.month < 100,
        d.date.day < 100,
        d.hour < 100,
        d.minute < 100,
        d.second < 100,
    ensures
        utc_second(d).len() == 20,
        crate::text::digits_value(utc_second(d).subrange(0, 4)) == d.date.year,
        utc_second(d)[4] == '-',
        crate::text::digits_value(utc_second(d).subrange(5, 7)) == d.date.month,
        utc_second(d)[7] == '-',
        crate::text::digits_value(utc_second(d).subrange(8, 10)) == d.date.day,
        utc_second(d)[10] == 'T',
        crate::text::digits_value(utc_second(d).subrange(11, 13)) == d.hour,
        utc_second(d)[13] == ':',
        crate::text::digits_value(utc_second(d).subrange(14, 16)) == d.minute,
        utc_second(d)[16] == ':',
        crate::text::digits_value(utc_second(d).subrange(17, 19)) == d.second,
        utc_second(d)[19] == 'Z',
{
    lemma_field(d.date.year as nat, 4);
    lemma_field(d.date.month as nat, 2);
    lemma_field(d.date.day as nat, 2);
    lemma_field(d.hour as nat, 2);
    lemma_field(d.minute as nat, 2);
    lemma_field(d.second as nat, 2);
    reveal_strlit("-");
    reveal_strlit("T");
    reveal_strlit(":");
    reveal_strlit("Z");
    let s = utc_second(d);
    assert(s.subrange(0, 4) =~= at_least_digits(d.date.year as nat, 4));
    assert(s.subrange(5, 7) =~= at_least_digits(d.date.month as nat, 2));
    assert(s.subrange(8, 10) =~= at_least_digits(d.date.day as nat, 2));
    assert(s.subrange(11, 13) =~= at_least_digits(d.hour as nat, 2));
    assert(s.subrange(14, 16) =~= at_least_digits(d.minute as nat, 2));
    assert(s.subrange(17, 19) =~= at_least_digits(d.second as nat, 2));
}

pub(crate) proof fn lemma_field(n: nat, width: nat)
    requires
        (width == 2 && n < 100) || (width == 4 && n < 10000),
    ensures
        at_least_digits(n, width).len() == width,
        crate::text::digits_value(at_least_digits(n, width)) == n,
{
    crate::text::padded_number_is_read_back(n, width);
    crate::text::lemma_decimal(n);
    lemma_decimal_len(n, width);
    reveal_with_fuel(decimal_fits, 5);
}

proof fn lemma_decimal_len(n: nat, width: nat)
    requires
        width >= 1,
    ensures
        decimal_fits(n, width) <==> crate::text::decimal(n).len() <= width,
    decreases width,
{
    crate::text::lemma_decimal(n);
    if n >= 10 {
        crate::text::lemma_decimal(n / 10);
        if width > 1 {
            lemma_decimal_len(n / 10, (width - 1) as nat);
        }
    }
}

/// Whether a number has at most so many digits.
spec fn decimal_fits(n: nat, width: nat) -> bool
    decreases width,
{
    if width <= 1 {
        n < 10
    } else {
        n < 10 || decimal_fits(n / 10, (width - 1) as nat)
    }
}

/// Appends a number with zeros in front, up to a number of digits at least.
pub fn push_at_least(out: &mut String, n: u64, width: u64)
    requires
        width == 2 || width == 3 || width == 4,
    ensures
        final(out)@ == old(out)@ + at_least_digits(n as nat, width as nat),
{
    let limit: u64 = if width == 2 { 10 } else if width == 3 { 100 } else { 1000 };
    proof {
        lemma_decimal_len(n as nat, (width - 1) as nat);
        reveal_with_fuel(decimal_fits, 4);
        assert(n < limit <==> decimal_fits(n as nat, (width - 1) as nat));
    }
    if n < limit {
        push_padded(out, n, width);
    } else {
        push_decimal(out, n);
    }
}

/// Appends a year.
pub fn push_year(out: &mut String, year: i32)
    ensures
        final(out)@ == old(out)@ + year_text(year as int),
{
    let ghost start = out@;
    if year < 0 {
        out.push('-');
        push_at_least(out, (-(year as i64)) as u64, 3);
    } else {
        push_at_least(out, year as u64, 4);
    }
    assert(out@ =~= start + year_text(year as int));
}

/// Appends when a book was last read.
pub fn push_pse_last_read_date(out: &mut String, d: &DateTime)
    ensures
        final(out)@ == old(out)@ + utc_second(*d),
{
    let ghost start = out@;
    push_year(out, d.date.year);
    out.append("-");
    push_at_least(out, d.date.month as u64, 2);
    out.append("-");
    push_at_least(out, d.date.day as u64, 2);
    out.append("T");
    push_at_least(out, d.hour as u64, 2);
    out.append(":");
    push_at_least(out, d.minute as u64, 2);
    out.append(":");
    push_at_least(out, d.second as u64, 2);
    out.append("Z");
    assert(out@ =~= start + utc_second(*d));
}

/// How far a book's pages were read, as a link tells it.
pub open spec fn last_read_xml(last_read: Option<i32>) -> Seq<char> {
    match last_read {
        Some(n) => " pse:lastRead=\""@ + crate::text::decimal_int(n as int) + "\""@,
        None => Seq::empty(),
    }
}

/// When a book's pages were last read, as a link tells it.
pub open spec fn last_read_date_xml(date: Option<DateTime>) -> Seq<char> {
    match date {
        Some(d) => " pse:lastReadDate=\""@ + utc_second(d) + "\""@,
        None => Seq::empty(),
    }
}

/// A link, as it is written.
pub open spec fn link_xml(l: LinkView) -> Seq<char> {
    match l.pse_count {
        Some(count) => "<link href=\""@ + escaped(l.href, true) + "\" xmlns:pse=\""@ + PSE_NS@
            + "\" pse:count=\""@ + crate::text::decimal_int(count as int) + "\""@ + last_read_xml(
            l.pse_last_read,
        ) + last_read_date_xml(l.pse_last_read_date) + " type=\""@ + escaped(l.type_, true)
            + "\" rel=\""@ + escaped(l.rel, true) + "\"/>"@,
        None => "<link type=\""@ + escaped(l.type_, true) + "\" rel=\""@ + escaped(l.rel, true)
            + "\" href=\""@ + escaped(l.href, true) + "\"/>"@,
    }
}

/// A written link tells where it leads, what is there and how that is related.
pub proof fn plain_link_tells_where_it_leads(l: LinkView)
    requires
        l.pse_count is None,
    ensures
        crate::text::contains_text(
            link_xml(l),
            "<link type=\""@ + escaped(l.type_, true) + "\" rel=\""@,
        ),
        crate::text::contains_text(
            link_xml(l),
            "\" rel=\""@ + escaped(l.rel, true) + "\" href=\""@,
        ),
        crate::text::contains_text(
            link_xml(l),
            "\" href=\""@ + escaped(l.href, true) + "\"/>"@,
        ),
{
    let a = "<link type=\""@;
    let x = escaped(l.type_, true);
    let b = "\" rel=\""@;
    let y = escaped(l.rel, true);
    let c = "\" href=\""@;
    let z = escaped(l.href, true);
    let d = "\"/>"@;
    let none = Seq::<char>::empty();
    crate::text::lemma_in_the_middle(none, a, x, b);
    assert(none + a =~= a);
    crate::text::lemma_appended(a + x + b, y, a + x + b);
    crate::text::lemma_appended(a + x + b + y, c, a + x + b);
    crate::text::lemma_appended(a + x + b + y + c, z, a + x + b);
    crate::text::lemma_appended(a + x + b + y + c + z, d, a + x + b);
    crate::text::lemma_in_the_middle(a + x, b, y, c);
    crate::text::lemma_appended(a + x + b + y + c, z, b + y + c);
    crate::text::lemma_appended(a + x + b + y + c + z, d, b + y + c);
    crate::text::lemma_in_the_middle(a + x + b + y, c, z, d);
}

/// A written link to the pages of a book tells where they are, how many there are, how far and when they
/// were read as far as that is known, what they are and how they are related.
pub proof fn page_link_tells_of_its_pages(l: LinkView)
    requires
        l.pse_count is Some,
    ensures
        crate::text::contains_text(
            link_xml(l),
            "<link href=\""@ + escaped(l.href, true) + "\" xmlns:pse=\""@,
        ),
        crate::text::contains_text(
            link_xml(l),
            "\" pse:count=\""@ + crate::text::decimal_int(l.pse_count->0 as int) + "\""@,
        ),
        l.pse_last_read is Some ==> crate::text::contains_text(
            link_xml(l),
            " pse:lastRead=\""@ + crate::text::decimal_int(l.pse_last_read->0 as int) + "\""@,
        ),
        l.pse_last_read_date is Some ==> crate::text::contains_text(
            link_xml(l),
            " pse:lastReadDate=\""@ + utc_second(l.pse_last_read_date->0) + "\""@,
        ),
        crate::text::contains_text(
            link_xml(l),
            " type=\""@ + escaped(l.type_, true) + "\" rel=\""@,
        ),
        crate::text::contains_text(
            link_xml(l),
            "\" rel=\""@ + escaped(l.rel, true) + "\"/>"@,
        ),
{
    let none = Seq::<char>::empty();
    let s3 = "<link href=\""@ + escaped(l.href, true) + "\" xmlns:pse=\""@;
    let s4 = s3 + PSE_NS@;
    let s5 = s4 + "\" pse:count=\""@;
    let s6 = s5 + crate::text::decimal_int(l.pse_count->0 as int);
    let s7 = s6 + "\""@;
    let s8 = s7 + last_read_xml(l.pse_last_read);
    let s9 = s8 + last_read_date_xml(l.pse_last_read_date);
    let s10 = s9 + " type=\""@;
    let s11 = s10 + escaped(l.type_, true);
    let s12 = s11 + "\" rel=\""@;
    let s13 = s12 + escaped(l.rel, true);
    let s14 = s13 + "\"/>"@;
    assert(link_xml(l) == s14);
    crate::text::lemma_appended(none, s3, s3);
    assert(none + s3 =~= s3);
    lemma_stays(s3, s4, s5, s6, s7, PSE_NS@, "\" pse:count=\""@, crate::text::decimal_int(
        l.pse_count->0 as int,
    ), "\""@, s3);
    crate::text::lemma_in_the_middle(
        s4,
        "\" pse:count=\""@,
        crate::text::decimal_int(l.pse_count->0 as int),
        "\""@,
    );
    lemma_link_end(l, s7, s3);
    lemma_link_end(
        l,
        s7,
        "\" pse:count=\""@ + crate::text::decimal_int(l.pse_count->0 as int) + "\""@,
    );
}

/// What stands in the first of these texts stands in the last.
proof fn lemma_stays(
    s3: Seq<char>,
    s4: Seq<char>,
    s5: Seq<char>,
    s6: Seq<char>,
    s7: Seq<char>,
    a: Seq<char>,
    b: Seq<char>,
    c: Seq<char>,
    d: Seq<char>,
    pat: Seq<char>,
)
    requires
        s4 == s3 + a,
        s5 == s4 + b,
        s6 == s5 + c,
        s7 == s6 + d,
        crate::text::contains_text(s3, pat),
    ensures
        crate::text::contains_text(s7, pat),
{
    crate::text::lemma_appended(s3, a, pat);
    crate::text::lemma_appended(s4, b, pat);
    crate::text::lemma_appended(s5, c, pat);
    crate::text::lemma_appended(s6, d, pat);
}

/// What the end of a link to pages tells, behind what stands before it.
proof fn lemma_link_end(l: LinkView, s7: Seq<char>, pat: Seq<char>)
    requires
        crate::text::contains_text(s7, pat),
    ensures
        ({
            let s = s7 + last_read_xml(l.pse_last_read) + last_read_date_xml(l.pse_last_read_date)
                + " type=\""@ + escaped(l.type_, true) + "\" rel=\""@ + escaped(l.rel, true) + "\"/>"@;
            &&& crate::text::contains_text(s, pat)
            &&& crate::text::contains_text(s, last_read_xml(l.pse_last_read))
            &&& crate::text::contains_text(s, last_read_date_xml(l.pse_last_read_date))
            &&& crate::text::contains_text(
                s,
                " type=\""@ + escaped(l.type_, true) + "\" rel=\""@,
            )
            &&& crate::text::contains_text(s, "\" rel=\""@ + escaped(l.rel, true) + "\"/>"@)
        }),
{
    let p = last_read_xml(l.pse_last_read);
    let q = last_read_date_xml(l.pse_last_read_date);
    let s8 = s7 + p;
    let s9 = s8 + q;
    let s10 = s9 + " type=\""@;
    let s11 = s10 + escaped(l.type_, true);
    let s12 = s11 + "\" rel=\""@;
    let s13 = s12 + escaped(l.rel, true);
    let t = " type=\""@ + escaped(l.type_, true) + "\" rel=\""@;
    crate::text::lemma_appended(s7, p, pat);
    crate::text::lemma_appended(s8, q, pat);
    crate::text::lemma_appended(s8, q, p);
    lemma_stays(
        s9,
        s10,
        s11,
        s12,
        s13,
        " type=\""@,
        escaped(l.type_, true),
        "\" rel=\""@,
        escaped(l.rel, true),
        pat,
    );
    lemma_stays(
        s9,
        s10,
        s11,
        s12,
        s13,
        " type=\""@,
        escaped(l.type_, true),
        "\" rel=\""@,
        escaped(l.rel, true),
        p,
    );
    lemma_stays(
        s9,
        s10,
        s11,
        s12,
        s13,
        " type=\""@,
        escaped(l.type_, true),
        "\" rel=\""@,
        escaped(l.rel, true),
        q,
    );
    crate::text::lemma_in_the_middle(s9, " type=\""@, escaped(l.type_, true), "\" rel=\""@);
    crate::text::lemma_in_the_middle(s11, "\" rel=\""@, escaped(l.rel, true), "\"/>"@);
    crate::text::lemma_appended(s12, escaped(l.rel, true), t);
    crate::text::lemma_appended(s13, "\"/>"@, t);
    crate::text::lemma_appended(s13, "\"/>"@, pat);
    crate::text::lemma_appended(s13, "\"/>"@, p);
    crate::text::lemma_appended(s13, "\"/>"@, q);
}

fn last_read_text(last_read: Option<i32>) -> (r: String)
    ensures
        r@ == last_read_xml(last_read),
{
    match last_read {
        Some(n) => {
            let mut r: String = " pse:lastRead=\"".to_owned();
            push_decimal_i64(&mut r, n as i64);
            r.append("\"");
            r
        },
        None => String::new(),
    }
}

fn last_read_date_text(date: &Option<DateTime>) -> (r: String)
    ensures
        r@ == last_read_date_xml(*date),
{
    match date {
        Some(d) => {
            let mut r: String = " pse:lastReadDate=\"".to_owned();
            push_pse_last_read_date(&mut r, d);
            r.append("\"");
            r
        },
        None => String::new(),
    }
}

fn link_text(link: &AtomLink) -> (r: String)
    ensures
        r@ == link_xml(link.deep_view()),
{
    match link.pse_count {
        Some(count) => {
            let mut r: String = "<link href=\"".to_owned();
            push_escaped(&mut r, link.href.as_str(), true);
            r.append("\" xmlns:pse=\"");
            r.append(PSE_NS);
            r.append("\" pse:count=\"");
            push_decimal_i64(&mut r, count as i64);
            r.append("\"");
            r.append(last_read_text(link.pse_last_read).as_str());
            r.append(last_read_date_text(&link.pse_last_read_date).as_str());
            r.append(" type=\"");
            push_escaped(&mut r, link.type_.as_str(), true);
            r.append("\" rel=\"");
            push_escaped(&mut r, link.rel.as_str(), true);
            r.append("\"/>");
            r
        },
        None => {
            let mut r: String = "<link type=\"".to_owned();
            push_escaped(&mut r, link.type_.as_str(), true);
            r.append("\" rel=\"");
            push_escaped(&mut r, link.rel.as_str(), true);
            r.append("\" href=\"");
            push_escaped(&mut r, link.href.as_str(), true);
            r.append("\"/>");
            r
        },
    }
}

/// Links, one after the other.
pub open spec fn links_xml(links: Seq<LinkView>) -> Seq<char>
    decreases links.len(),
{
    if links.len() == 0 {
        Seq::empty()
    } else {
        links_xml(links.drop_last()) + link_xml(links.last())
    }
}

fn write_links(out: &mut String, links: &Vec<AtomLink>)
    ensures
        final(out)@ == old(out)@ + links_xml(links.deep_view()),
{
    let ghost start = out@;
    let ghost all = links.deep_view();
    let mut i: usize = 0;
    assert(out@ =~= start + links_xml(all.take(0)));
    while i < links.len()
        invariant
            i <= links.len(),
            all == links.deep_view(),
            out@ == start + links_xml(all.take(i as int)),
        decreases links.len() - i,
    {
        assert(all.take(i as int + 1).drop_last() =~= all.take(i as int));
        assert(all.take(i as int + 1).last() == links@[i as int].deep_view());
        out.append(link_text(&links[i]).as_str());
        assert(out@ =~= start + links_xml(all.take(i as int + 1)));
        i += 1;
    }
    assert(all.take(all.len() as int) =~= all);
}

/// Authors, one after the other.
pub open spec fn authors_xml(authors: Seq<Seq<char>>) -> Seq<char>
    decreases authors.len(),
{
    if authors.len() == 0 {
        Seq::empty()
    } else {
        authors_xml(authors.drop_last()) + "<author>"@ + element("name"@, authors.last())
            + "</author>"@
    }
}

fn write_authors(out: &mut String, authors: &Vec<String>)
    ensures
        final(out)@ == old(out)@ + authors_xml(authors.deep_view()),
{
    let ghost start = out@;
    let ghost all = authors.deep_view();
    let mut i: usize = 0;
    assert(out@ =~= start + authors_xml(all.take(0)));
    while i < authors.len()
        invariant
            i <= authors.len(),
            all == authors.deep_view(),
            out@ == start + authors_xml(all.take(i as int)),
        decreases authors.len() - i,
    {
        assert(all.take(i as int + 1).drop_last() =~= all.take(i as int));
        assert(all.take(i as int + 1).last() == authors@[i as int]@);
        out.append("<author>");
        push_el(out, "name", authors[i].as_str());
        out.append("</author>");
        assert(out@ =~= start + authors_xml(all.take(i as int + 1)));
        i += 1;
    }
    assert(all.take(all.len() as int) =~= all);
}

/// An entry, as it is written.
pub open spec fn entry_xml(e: EntryView) -> Seq<char> {
    "<entry>"@ + element("title"@, e.title) + element("updated"@, e.updated) + element("id"@, e.id)
        + element("content"@, e.content) + authors_xml(e.authors) + links_xml(e.links) + "</entry>"@
}

fn entry_text(e: &AtomEntry) -> (r: String)
    ensures
        r@ == entry_xml(e.deep_view()),
{
    let mut r: String = "<entry>".to_owned();
    push_el(&mut r, "title", e.title.as_str());
    push_el(&mut r, "updated", e.updated.as_str());
    push_el(&mut r, "id", e.id.as_str());
    push_el(&mut r, "content", e.content.as_str());
    write_authors(&mut r, &e.authors);
    write_links(&mut r, &e.links);
    r.append("</entry>");
    r
}

/// Entries, one after the other.
pub open spec fn entries_xml(entries: Seq<EntryView>) -> Seq<char>
    decreases entries.len(),
{
    if entries.len() == 0 {
        Seq::empty()
    } else {
        entries_xml(entries.drop_last()) + entry_xml(entries.last())
    }
}

/// A feed, as it is written.
pub open spec fn feed_xml(f: FeedView) -> Seq<char> {
    "<feed xmlns=\""@ + ATOM_NS@ + "\">"@ + element("id"@, f.id) + element("title"@, f.title)
        + element("updated"@, f.updated)
        + "<author><name>Komga</name><uri>https://github.com/gotson/komga</uri></author>"@
        + links_xml(f.links) + entries_xml(f.entries) + "</feed>"@
}

/// The markup of an element with a text in it.
pub open spec fn marked_up(start: Seq<char>, value: Seq<char>, end: Seq<char>) -> Seq<char> {
    start + escaped(value, false) + end
}

proof fn lemma_element(whole: Seq<char>, before: Seq<char>, name: Seq<char>, value: Seq<char>, after: Seq<char>)
    requires
        whole == before + element(name, value) + after,
    ensures
        crate::text::contains_text(
            whole,
            marked_up("<"@ + name + ">"@, value, "</"@ + name + ">"@),
        ),
{
    let e = marked_up("<"@ + name + ">"@, value, "</"@ + name + ">"@);
    assert(e =~= element(name, value));
    crate::text::part_stands_in_the_whole(before, e, after, e);
}

proof fn lemma_links_hold_each(links: Seq<LinkView>, i: int)
    requires
        0 <= i < links.len(),
    ensures
        crate::text::contains_text(links_xml(links), link_xml(links[i])),
    decreases links.len(),
{
    let none = Seq::<char>::empty();
    let init = links_xml(links.drop_last());
    let last = link_xml(links.last());
    if i == links.len() - 1 {
        crate::text::part_stands_in_the_whole(init, last, none, last);
        assert(init + last + none =~= links_xml(links));
    } else {
        lemma_links_hold_each(links.drop_last(), i);
        crate::text::part_stands_in_the_whole(none, init, last, link_xml(links[i]));
        assert(none + init + last =~= links_xml(links));
    }
}

proof fn lemma_entries_hold_each(entries: Seq<EntryView>, i: int)
    requires
        0 <= i < entries.len(),
    ensures
        crate::text::contains_text(entries_xml(entries), entry_xml(entries[i])),
    decreases entries.len(),
{
    let none = Seq::<char>::empty();
    let init = entries_xml(entries.drop_last());
    let last = entry_xml(entries.last());
    if i == entries.len() - 1 {
        crate::text::part_stands_in_the_whole(init, last, none, last);
        assert(init + last + none =~= entries_xml(entries));
    } else {
        lemma_entries_hold_each(entries.drop_last(), i);
        crate::text::part_stands_in_the_whole(none, init, last, entry_xml(entries[i]));
        assert(none + init + last =~= entries_xml(entries));
    }
}

proof fn lemma_authors_hold_each(authors: Seq<Seq<char>>, i: int)
    requires
        0 <= i < authors.len(),
    ensures
        crate::text::contains_text(
            authors_xml(authors),
            marked_up("<"@ + "name"@ + ">"@, authors[i], "</"@ + "name"@ + ">"@),
        ),
    decreases authors.len(),
{
    let none = Seq::<char>::empty();
    let all = authors_xml(authors);
    let init = authors_xml(authors.drop_last());
    if i == authors.len() - 1 {
        assert(all =~= (init + "<author>"@) + element("name"@, authors[i]) + "</author>"@);
        lemma_element(all, init + "<author>"@, "name"@, authors[i], "</author>"@);
    } else {
        lemma_authors_hold_each(authors.drop_last(), i);
        let last = "<author>"@ + element("name"@, authors.last()) + "</author>"@;
        crate::text::part_stands_in_the_whole(
            none,
            init,
            last,
            marked_up("<"@ + "name"@ + ">"@, authors[i], "</"@ + "name"@ + ">"@),
        );
        assert(none + init + last =~= all);
    }
}

/// A written entry holds its title, the time of its last change, its id and its content, each under its
/// own name, and each of its authors and links.
#[verifier::rlimit(100)]
#[verifier::spinoff_prover]
pub proof fn written_entry_holds_its_parts(e: EntryView, author: int, link: int)
    ensures
        crate::text::contains_text(
            entry_xml(e),
            marked_up("<"@ + "title"@ + ">"@, e.title, "</"@ + "title"@ + ">"@),
        ),
        crate::text::contains_text(
            entry_xml(e),
            marked_up("<"@ + "updated"@ + ">"@, e.updated, "</"@ + "updated"@ + ">"@),
        ),
        crate::text::contains_text(
            entry_xml(e),
            marked_up("<"@ + "id"@ + ">"@, e.id, "</"@ + "id"@ + ">"@),
        ),
        crate::text::contains_text(
            entry_xml(e),
            marked_up("<"@ + "content"@ + ">"@, e.content, "</"@ + "content"@ + ">"@),
        ),
        0 <= author < e.authors.len() ==> crate::text::contains_text(
            entry_xml(e),
            marked_up("<"@ + "name"@ + ">"@, e.authors[author], "</"@ + "name"@ + ">"@),
        ),
        0 <= link < e.links.len() ==> crate::text::contains_text(
            entry_xml(e),
            link_xml(e.links[link]),
        ),
{
    let s = entry_xml(e);
    let t = element("title"@, e.title);
    let u = element("updated"@, e.updated);
    let d = element("id"@, e.id);
    let c = element("content"@, e.content);
    let a = authors_xml(e.authors);
    let l = links_xml(e.links);
    let end = "</entry>"@;
    assert(s =~= "<entry>"@ + t + (u + d + c + a + l + end));
    lemma_element(s, "<entry>"@, "title"@, e.title, u + d + c + a + l + end);
    assert(s =~= ("<entry>"@ + t) + u + (d + c + a + l + end));
    lemma_element(s, "<entry>"@ + t, "updated"@, e.updated, d + c + a + l + end);
    assert(s =~= ("<entry>"@ + t + u) + d + (c + a + l + end));
    lemma_element(s, "<entry>"@ + t + u, "id"@, e.id, c + a + l + end);
    assert(s =~= ("<entry>"@ + t + u + d) + c + (a + l + end));
    lemma_element(s, "<entry>"@ + t + u + d, "content"@, e.content, a + l + end);
    if 0 <= author < e.authors.len() {
        lemma_authors_hold_each(e.authors, author);
        assert(s =~= ("<entry>"@ + t + u + d + c) + a + (l + end));
        crate::text::part_stands_in_the_whole(
            "<entry>"@ + t + u + d + c,
            a,
            l + end,
            marked_up("<"@ + "name"@ + ">"@, e.authors[author], "</"@ + "name"@ + ">"@),
        );
    }
    if 0 <= link < e.links.len() {
        lemma_links_hold_each(e.links, link);
        assert(s =~= ("<entry>"@ + t + u + d + c + a) + l + end);
        crate::text::part_stands_in_the_whole(
            "<entry>"@ + t + u + d + c + a,
            l,
            end,
            link_xml(e.links[link]),
        );
    }
}

/// A written feed holds its id, its title and the time of its last change, each under its own name, and
/// each of its links and entries.
#[verifier::rlimit(100)]
#[verifier::spinoff_prover]
pub proof fn written_feed_holds_its_parts(f: FeedView, link: int, entry: int)
    ensures
        crate::text::contains_text(
            feed_xml(f),
            marked_up("<"@ + "id"@ + ">"@, f.id, "</"@ + "id"@ + ">"@),
        ),
        crate::text::contains_text(
            feed_xml(f),
            marked_up("<"@ + "title"@ + ">"@, f.title, "</"@ + "title"@ + ">"@),
        ),
        crate::text::contains_text(
            feed_xml(f),
            marked_up("<"@ + "updated"@ + ">"@, f.updated, "</"@ + "updated"@ + ">"@),
        ),
        0 <= link < f.links.len() ==> crate::text::contains_text(
            feed_xml(f),
            link_xml(f.links[link]),
        ),
        0 <= entry < f.entries.len() ==> crate::text::contains_text(
            feed_xml(f),
            entry_xml(f.entries[entry]),
        ),
{
    let s = feed_xml(f);
    let head = "<feed xmlns=\""@ + ATOM_NS@ + "\">"@;
    let d = element("id"@, f.id);
    let t = element("title"@, f.title);
    let u = element("updated"@, f.updated);
    let a = "<author><name>Komga</name><uri>https://github.com/gotson/komga</uri></author>"@;
    let l = links_xml(f.links);
    let e = entries_xml(f.entries);
    let end = "</feed>"@;
    assert(s =~= head + d + (t + u + a + l + e + end));
    lemma_element(s, head, "id"@, f.id, t + u + a + l + e + end);
    assert(s =~= (head + d) + t + (u + a + l + e + end));
    lemma_element(s, head + d, "title"@, f.title, u + a + l + e + end);
    assert(s =~= (head + d + t) + u + (a + l + e + end));
    lemma_element(s, head + d + t, "updated"@, f.updated, a + l + e + end);
    if 0 <= link < f.links.len() {
        lemma_links_hold_each(f.links, link);
        assert(s =~= (head + d + t + u + a) + l + (e + end));
        crate::text::part_stands_in_the_whole(
            head + d + t + u + a,
            l,
            e + end,
            link_xml(f.links[link]),
        );
    }
    if 0 <= entry < f.entries.len() {
        lemma_entries_hold_each(f.entries, entry);
        assert(s =~= (head + d + t + u + a + l) + e + end);
        crate::text::part_stands_in_the_whole(
            head + d + t + u + a + l,
            e,
            end,
            entry_xml(f.entries[entry]),
        );
    }
}

/// Writes a feed.
pub fn write_feed(feed: &Feed) -> (r: String)
    ensures
        r@ == feed_xml(feed.deep_view()),
{
    let mut out: String = "<feed xmlns=\"".to_owned();
    out.append(ATOM_NS);
    out.append("\">");
    push_el(&mut out, "id", feed.id.as_str());
    push_el(&mut out, "title", feed.title.as_str());
    push_el(&mut out, "updated", feed.updated.as_str());
    out.append("<author><name>Komga</name><uri>https://github.com/gotson/komga</uri></author>");
    write_links(&mut out, &feed.links);
    let ghost start = out@;
    let ghost all = feed.entries.deep_view();
    let mut i: usize = 0;
    assert(out@ =~= start + entries_xml(all.take(0)));
    while i < feed.entries.len()
        invariant
            i <= feed.entries.len(),
            all == feed.entries.deep_view(),
            out@ == start + entries_xml(all.take(i as int)),
        decreases feed.entries.len() - i,
    {
        assert(all.take(i as int + 1).drop_last() =~= all.take(i as int));
        assert(all.take(i as int + 1).last() == feed.entries@[i as int].deep_view());
        out.append(entry_text(&feed.entries[i]).as_str());
        assert(out@ =~= start + entries_xml(all.take(i as int + 1)));
        i += 1;
    }
    assert(all.take(all.len() as int) =~= all);
    out.append("</feed>");
    out
}

/// The description of how to search, as it is written.
pub open spec fn open_search_xml(template: Seq<char>) -> Seq<char> {
    "<OpenSearchDescription xmlns=\"http://a9.com/-/spec/opensearch/1.1/\"><ShortName>Search</ShortName><Description>Search for series</Description><InputEncoding>UTF-8</InputEncoding><OutputEncoding>UTF-8</OutputEncoding><Url template=\""@
        + escaped(template, true) + "\" type=\""@ + TYPE_ACQ@ + "\"/></OpenSearchDescription>"@
}

/// Writes the description of how to search.
pub fn write_open_search(template: &str) -> (r: String)
    ensures
        r@ == open_search_xml(template@),
{
    let mut out: String = "<OpenSearchDescription xmlns=\"http://a9.com/-/spec/opensearch/1.1/\"><ShortName>Search</ShortName><Description>Search for series</Description><InputEncoding>UTF-8</InputEncoding><OutputEncoding>UTF-8</OutputEncoding><Url template=\"".to_owned();
    push_escaped(&mut out, template, true);
    out.append("\" type=\"");
    out.append(TYPE_ACQ);
    out.append("\"/></OpenSearchDescription>");
    out
}

} // verus!
