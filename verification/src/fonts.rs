//! Fonts for the reader: the families that are there, and their style sheets.
use vstd::prelude::*;

use crate::error::{status_error, ApiError};
use crate::text::{
    chars_lt, chars_of, contains, eq_ignore_case, join, lowercase, string_of, text_eq,
};

verus! {

/// A font file. `S` says where its contents are.
#[derive(Debug, PartialEq, Eq)]
pub struct FontFile<S> {
    pub name: String,
    pub source: S,
}

/// A family of fonts.
#[derive(Debug, PartialEq, Eq)]
pub struct FontFamily<S> {
    pub name: String,
    pub files: Vec<FontFile<S>>,
}

/// The families of fonts, sorted by name, each once.
#[derive(Debug, PartialEq, Eq)]
pub struct FontRegistry<S> {
    pub families: Vec<FontFamily<S>>,
}

/// The family that every server has.
pub const EMBEDDED_FAMILY: &'static str = "OpenDyslexic";

/// The extension of a file name: what follows its last dot, unless the dot is the first character.
pub open spec fn file_extension(name: Seq<char>) -> Option<Seq<char>> {
    let i = crate::pages::after_last(name, '.', '.');
    if i <= 1 || name == ".."@ {
        None
    } else {
        Some(name.skip(i))
    }
}

/// Takes the extension of a file name.
pub fn extension_of(name: &str) -> (r: Option<String>)
    ensures
        r.deep_view() == file_extension(name@),
{
    let v: Vec<char> = chars_of(name);
    let i: usize = crate::pages::find_after_last(&v, '.', '.');
    if i <= 1 || text_eq(name, "..") {
        return None;
    }
    assert(v@.subrange(i as int, v@.len() as int) =~= v@.skip(i as int));
    Some(string_of(&v, i, v.len()))
}

/// Whether a file is a font, by its extension.
pub open spec fn is_supported(name: Seq<char>) -> bool {
    match file_extension(name) {
        Some(ext) => {
            let low = crate::text::ascii_lowered(ext);
            ||| low == crate::text::ascii_lowered("woff"@)
            ||| low == crate::text::ascii_lowered("woff2"@)
            ||| low == crate::text::ascii_lowered("ttf"@)
            ||| low == crate::text::ascii_lowered("otf"@)
        },
        None => false,
    }
}

/// A file is known by what follows the last point in its name, and it is a font if that is `woff`,
/// `woff2`, `ttf` or `otf`, in any case.
pub proof fn font_is_known_by_its_extension(base: Seq<char>, ext: Seq<char>)
    requires
        base.len() > 0,
        ext.len() > 0,
        !ext.contains('.'),
    ensures
        file_extension(base + seq!['.'] + ext) == Some(ext),
        file_extension(ext) is None,
        ext == "woff"@ || ext == "woff2"@ || ext == "ttf"@ || ext == "otf"@ ==> is_supported(
            base + seq!['.'] + ext,
        ),
        is_supported(base + seq!['.'] + ext) ==> crate::text::ascii_lowered(ext) == "woff"@
            || crate::text::ascii_lowered(ext) == "woff2"@ || crate::text::ascii_lowered(ext) == "ttf"@
            || crate::text::ascii_lowered(ext) == "otf"@,
        !is_supported(ext),
{
    let name = base + seq!['.'] + ext;
    let n = base.len() as int;
    assert forall|k: int| 0 <= k < ext.len() implies #[trigger] ext[k] != '.' by {
        assert(ext.contains(ext[k]));
    }
    assert forall|k: int| n + 1 <= k < name.len() implies #[trigger] name[k] != '.' by {
        assert(name[k] == ext[k - n - 1]);
    }
    crate::pages::lemma_after_last_is(name, '.', '.', n + 1);
    crate::pages::lemma_after_last_is(ext, '.', '.', 0);
    assert(name.skip(n + 1) =~= ext);
    reveal_strlit("..");
    assert(name.len() > 2);
    reveal_strlit("woff");
    reveal_strlit("woff2");
    reveal_strlit("ttf");
    reveal_strlit("otf");
    assert(crate::text::ascii_lowered("woff"@) =~= "woff"@);
    assert(crate::text::ascii_lowered("woff2"@) =~= "woff2"@);
    assert(crate::text::ascii_lowered("ttf"@) =~= "ttf"@);
    assert(crate::text::ascii_lowered("otf"@) =~= "otf"@);
}

fn supported(name: &str) -> (r: bool)
    ensures
        r == is_supported(name@),
{
    match extension_of(name) {
        Some(ext) => eq_ignore_case(ext.as_str(), "woff") || eq_ignore_case(ext.as_str(), "woff2")
            || eq_ignore_case(ext.as_str(), "ttf") || eq_ignore_case(ext.as_str(), "otf"),
        None => false,
    }
}

/// The fonts among files.
pub open spec fn font_files<S>(files: Seq<FontFile<S>>) -> Seq<FontFile<S>> {
    files.filter(|f: FontFile<S>| is_supported(f.name@))
}

fn keep_fonts<S>(files: Vec<FontFile<S>>) -> (r: Vec<FontFile<S>>)
    ensures
        r@ == font_files(files@),
{
    let ghost keep = |f: FontFile<S>| is_supported(f.name@);
    let mut r: Vec<FontFile<S>> = Vec::new();
    proof {
        reveal(Seq::filter);
        assert(r@ =~= files@.take(0).filter(keep));
    }
    for f in it: files
        invariant
            it.seq() == files@,
            keep == (|f: FontFile<S>| is_supported(f.name@)),
            r@ == files@.take(it.index()).filter(keep),
    {
        proof {
            assert(files@.take(it.index() + 1) =~= files@.take(it.index()).push(f));
            files@.take(it.index()).lemma_filter_push(f, keep);
        }
        if supported(f.name.as_str()) {
            r.push(f);
        }
    }
    assert(files@.take(files@.len() as int) =~= files@);
    r
}

/// What is registered under a name: the fonts of the last directory of that name that holds any, or
/// the embedded ones under their own name.
pub open spec fn registered<S>(
    embedded: Seq<FontFile<S>>,
    directories: Seq<FontFamily<S>>,
    name: Seq<char>,
) -> Option<Seq<FontFile<S>>>
    decreases directories.len(),
{
    if directories.len() == 0 {
        if name == EMBEDDED_FAMILY@ {
            Some(embedded)
        } else {
            None
        }
    } else {
        let d = directories.last();
        if d.name@ == name && font_files(d.files@).len() > 0 {
            Some(font_files(d.files@))
        } else {
            registered(embedded, directories.drop_last(), name)
        }
    }
}

proof fn lemma_font_files<S>(files: Seq<FontFile<S>>, f: FontFile<S>)
    ensures
        font_files(files).contains(f) <==> files.contains(f) && is_supported(f.name@),
{
    let keep = |f: FontFile<S>| is_supported(f.name@);
    if files.contains(f) && is_supported(f.name@) {
        let k = choose|k: int| 0 <= k < files.len() && files[k] == f;
        files.lemma_filter_contains(keep, k);
    }
    if font_files(files).contains(f) {
        files.lemma_filter_contains_rev(keep, f);
        let k = choose|k: int| 0 <= k < font_files(files).len() && font_files(files)[k] == f;
        files.lemma_filter_pred(keep, k);
    }
}

/// A directory with a font in it is a family of its own name, of all fonts in it and of nothing else,
/// unless a later directory of that name holds a font too.
pub proof fn directory_with_fonts_is_a_family<S>(
    embedded: Seq<FontFile<S>>,
    directories: Seq<FontFamily<S>>,
    i: int,
    font: FontFile<S>,
    f: FontFile<S>,
)
    requires
        0 <= i < directories.len(),
        directories[i].files@.contains(font),
        is_supported(font.name@),
        forall|j: int, g: FontFile<S>|
            i < j < directories.len() && (#[trigger] directories[j]).name@ == directories[i].name@
                && #[trigger] directories[j].files@.contains(g) ==> !is_supported(g.name@),
    ensures
        registered(embedded, directories, directories[i].name@) is Some,
        registered(embedded, directories, directories[i].name@)->0.contains(f)
            <==> directories[i].files@.contains(f) && is_supported(f.name@),
    decreases directories.len(),
{
    let d = directories.last();
    let last = directories.len() - 1;
    let rest = directories.drop_last();
    if i == last {
        lemma_font_files(d.files@, font);
        lemma_font_files(d.files@, f);
    } else {
        if d.name@ == directories[i].name@ && font_files(d.files@).len() > 0 {
            let g = font_files(d.files@)[0];
            assert(font_files(d.files@).contains(g));
            lemma_font_files(d.files@, g);
            assert(directories[last].files@.contains(g));
        }
        assert forall|j: int, g: FontFile<S>|
            i < j < rest.len() && (#[trigger] rest[j]).name@ == rest[i].name@ && #[trigger] rest[j].files@.contains(
                g,
            ) implies !is_supported(g.name@) by {
            assert(directories[j].files@.contains(g));
        }
        directory_with_fonts_is_a_family(embedded, rest, i, font, f);
    }
}

/// A name without a directory that holds a font is that of the embedded family, or of none.
pub proof fn embedded_family_is_always_there<S>(
    embedded: Seq<FontFile<S>>,
    directories: Seq<FontFamily<S>>,
    name: Seq<char>,
)
    requires
        forall|j: int, g: FontFile<S>|
            0 <= j < directories.len() && (#[trigger] directories[j]).name@ == name
                && #[trigger] directories[j].files@.contains(g) ==> !is_supported(g.name@),
    ensures
        name == "OpenDyslexic"@ ==> registered(embedded, directories, name) == Some(embedded),
        name != "OpenDyslexic"@ ==> registered(embedded, directories, name) is None,
    decreases directories.len(),
{
    if directories.len() > 0 {
        let d = directories.last();
        let last = directories.len() - 1;
        let rest = directories.drop_last();
        if d.name@ == name && font_files(d.files@).len() > 0 {
            let g = font_files(d.files@)[0];
            assert(font_files(d.files@).contains(g));
            lemma_font_files(d.files@, g);
            assert(directories[last].files@.contains(g));
        }
        assert forall|j: int, g: FontFile<S>|
            0 <= j < rest.len() && (#[trigger] rest[j]).name@ == name && #[trigger] rest[j].files@.contains(
                g,
            ) implies !is_supported(g.name@) by {
            assert(directories[j].files@.contains(g));
        }
        embedded_family_is_always_there(embedded, rest, name);
    }
}

/// Whether families are sorted by name, each once.
pub open spec fn sorted_families<S>(families: Seq<FontFamily<S>>) -> bool {
    forall|i: int, j: int|
        0 <= i < j < families.len() ==> crate::text::lex_lt(
            (#[trigger] families[i]).name@,
            (#[trigger] families[j]).name@,
        )
}

/// Whether a family is there with these files.
pub open spec fn has_family<S>(families: Seq<FontFamily<S>>, name: Seq<char>, files: Seq<FontFile<S>>) -> bool {
    exists|i: int|
        0 <= i < families.len() && (#[trigger] families[i]).name@ == name && families[i].files@ == files
}

/// Whether no family has this name.
pub open spec fn lacks_family<S>(families: Seq<FontFamily<S>>, name: Seq<char>) -> bool {
    forall|i: int| 0 <= i < families.len() ==> (#[trigger] families[i]).name@ != name
}

/// Whether a family is there just as it is to be.
pub open spec fn holds<S>(families: Seq<FontFamily<S>>, name: Seq<char>, files: Option<Seq<FontFile<S>>>) -> bool {
    match files {
        Some(f) => has_family(families, name, f),
        None => lacks_family(families, name),
    }
}

/// Registers a family, in place of one with the same name.
fn put_family<S>(families: &mut Vec<FontFamily<S>>, family: FontFamily<S>)
    requires
        sorted_families(old(families)@),
    ensures
        sorted_families(final(families)@),
        has_family(final(families)@, family.name@, family.files@),
        forall|name: Seq<char>, files: Option<Seq<FontFile<S>>>|
            name != family.name@ && #[trigger] holds(old(families)@, name, files) ==> holds(
                final(families)@,
                name,
                files,
            ),
{
    let ghost before = families@;
    let key: Vec<char> = chars_of(family.name.as_str());
    let mut at: usize = 0;
    while at < families.len() && chars_lt(&chars_of(families[at].name.as_str()), &key)
        invariant
            families@ == before,
            at <= families.len(),
            key@ == family.name@,
            forall|i: int|
                0 <= i < at ==> crate::text::lex_lt((#[trigger] before[i]).name@, family.name@),
        decreases families.len() - at,
    {
        at += 1;
    }
    let there: bool = at < families.len() && text_eq(families[at].name.as_str(), family.name.as_str());
    let ghost new = family;
    if there {
        families.remove(at);
    }
    let ghost mid = families@;
    proof {
        assert forall|i: int| at <= i < mid.len() implies crate::text::lex_lt(
            new.name@,
            (#[trigger] mid[i]).name@,
        ) by {
            let old_i = if there { i + 1 } else { i };
            assert(mid[i] == before[old_i]);
            if there {
                assert(crate::text::lex_lt(before[at as int].name@, before[old_i].name@));
            } else {
                crate::sorting::lex_is_total(new.name@, before[at as int].name@);
                if i > at {
                    assert(crate::text::lex_lt(before[at as int].name@, before[i].name@));
                    crate::sorting::lemma_lex_transitive(
                        new.name@,
                        before[at as int].name@,
                        before[i].name@,
                    );
                }
            }
        }
        assert forall|i: int| 0 <= i < at implies mid[i] == before[i] by {}
    }
    families.insert(at, family);
    proof {
        let after = families@;
        assert(after =~= mid.insert(at as int, new));
        assert(after[at as int] == new);
        assert(has_family(after, new.name@, new.files@));
        assert forall|i: int, j: int| 0 <= i < j < after.len() implies crate::text::lex_lt(
            (#[trigger] after[i]).name@,
            (#[trigger] after[j]).name@,
        ) by {
            let mi = if i < at { i } else { i - 1 };
            let mj = if j < at { j } else { j - 1 };
            if i == at {
                assert(after[j] == mid[mj]);
            } else if j == at {
                assert(after[i] == before[i]);
            } else {
                let bi = if mi < at || !there { mi } else { mi + 1 };
                let bj = if mj < at || !there { mj } else { mj + 1 };
                assert(after[i] == before[bi]);
                assert(after[j] == before[bj]);
                assert(crate::text::lex_lt(before[bi].name@, before[bj].name@));
            }
        }
        assert forall|name: Seq<char>, files: Option<Seq<FontFile<S>>>|
            name != new.name@ && #[trigger] holds(before, name, files) implies holds(
            after,
            name,
            files,
        ) by {
            match files {
                Some(f) => {
                    let i = choose|i: int|
                        0 <= i < before.len() && (#[trigger] before[i]).name@ == name && before[i].files@
                            == f;
                    let k = if i < at { i } else if there { i } else { i + 1 };
                    assert(after[k] == before[i]);
                },
                None => {
                    assert forall|k: int| 0 <= k < after.len() implies (#[trigger] after[k]).name@
                        != name by {
                        if k != at {
                            let mk = if k < at { k } else { k - 1 };
                            let bk = if mk < at || !there { mk } else { mk + 1 };
                            assert(after[k] == before[bk]);
                        }
                    }
                },
            }
        }
    }
}

impl<S> FontRegistry<S> {
    /// Registers the embedded fonts, then the fonts in each directory that holds any.
    pub fn load(embedded: Vec<FontFile<S>>, directories: Vec<FontFamily<S>>) -> (r: FontRegistry<S>)
        ensures
            sorted_families(r.families@),
            forall|name: Seq<char>| #[trigger]
                holds(r.families@, name, registered(embedded@, directories@, name)),
    {
        let mut families: Vec<FontFamily<S>> = Vec::new();
        let ghost first = embedded@;
        families.push(FontFamily { name: EMBEDDED_FAMILY.to_owned(), files: embedded });
        proof {
            let none = directories@.take(0);
            assert forall|name: Seq<char>| #[trigger] holds(
                families@,
                name,
                registered(first, none, name),
            ) by {
                if name == EMBEDDED_FAMILY@ {
                    assert(families@[0].name@ == name && families@[0].files@ == first);
                }
            }
        }
        for d in it: directories
            invariant
                it.seq() == directories@,
                sorted_families(families@),
                forall|name: Seq<char>| #[trigger]
                    holds(families@, name, registered(first, directories@.take(it.index()), name)),
        {
            let ghost done = directories@.take(it.index());
            let ghost next = directories@.take(it.index() + 1);
            let ghost before = families@;
            let ghost dir = d;
            proof {
                assert(next.drop_last() =~= done);
                assert(next.last() == dir);
            }
            let fonts: Vec<FontFile<S>> = keep_fonts(d.files);
            if fonts.len() > 0 {
                put_family(&mut families, FontFamily { name: d.name, files: fonts });
            }
            proof {
                assert forall|name: Seq<char>| #[trigger] holds(
                    families@,
                    name,
                    registered(first, next, name),
                ) by {
                    assert(holds(before, name, registered(first, done, name)));
                }
            }
        }
        assert(directories@.take(directories@.len() as int) =~= directories@);
        FontRegistry { families }
    }

    /// The families.
    pub fn get(&self) -> (r: &Vec<FontFamily<S>>)
        ensures
            *r == self.families,
    {
        &self.families
    }

    /// Finds a family; any other name is not found.
    pub fn family(&self, name: &str) -> (r: Result<&FontFamily<S>, ApiError>)
        ensures
            match r {
                Ok(f) => exists|i: int|
                    0 <= i < self.families.len() && #[trigger] self.families@[i] == *f && f.name@
                        == name@,
                Err(e) => lacks_family(self.families@, name@) && e.deep_view() == status_error(
                    404,
                    ""@,
                ),
            },
    {
        let mut i: usize = 0;
        while i < self.families.len()
            invariant
                i <= self.families.len(),
                forall|k: int| 0 <= k < i ==> (#[trigger] self.families@[k]).name@ != name@,
            decreases self.families.len() - i,
        {
            if text_eq(self.families[i].name.as_str(), name) {
                return Ok(&self.families[i]);
            }
            i += 1;
        }
        Err(ApiError::not_found(""))
    }
}

impl<S> FontFamily<S> {
    /// Finds a file of the family; any other name is not found.
    pub fn file(&self, name: &str) -> (r: Result<&FontFile<S>, ApiError>)
        ensures
            match r {
                Ok(f) => exists|i: int|
                    0 <= i < self.files.len() && #[trigger] self.files@[i] == *f && f.name@ == name@
                        && forall|k: int| 0 <= k < i ==> (#[trigger] self.files@[k]).name@ != name@,
                Err(e) => e.deep_view() == status_error(404, ""@) && forall|k: int|
                    0 <= k < self.files.len() ==> (#[trigger] self.files@[k]).name@ != name@,
            },
    {
        let mut i: usize = 0;
        while i < self.files.len()
            invariant
                i <= self.files.len(),
                forall|k: int| 0 <= k < i ==> (#[trigger] self.files@[k]).name@ != name@,
            decreases self.files.len() - i,
        {
            if text_eq(self.files[i].name.as_str(), name) {
                return Ok(&self.files[i]);
            }
            i += 1;
        }
        Err(ApiError::not_found(""))
    }
}

// ---- style sheets ----

/// The extension of a file in lower case; nothing for a file without one.
pub open spec fn lower_extension(name: Seq<char>) -> Seq<char> {
    match file_extension(name) {
        Some(ext) => crate::text::lowercased(ext),
        None => Seq::empty(),
    }
}

fn lowered_extension(name: &str) -> (r: String)
    ensures
        r@ == lower_extension(name@),
{
    match extension_of(name) {
        Some(ext) => lowercase(ext.as_str()),
        None => String::new(),
    }
}

/// The media type of a font file.
pub fn font_media_type(name: &str) -> (r: String)
    ensures
        r@ == "font/"@ + lower_extension(name@),
{
    let mut r: String = "font/".to_owned();
    r.append(lowered_extension(name).as_str());
    r
}

/// What a style sheet calls the format of a file.
pub open spec fn format_name(ext: Seq<char>) -> Seq<char> {
    if ext == "ttf"@ {
        "truetype"@
    } else if ext == "otf"@ {
        "opentype"@
    } else {
        ext
    }
}

/// A format is called by its extension, but for the two that style sheets call otherwise.
pub proof fn formats_have_their_names(ext: Seq<char>)
    ensures
        format_name("ttf"@) == "truetype"@,
        format_name("otf"@) == "opentype"@,
        ext != "ttf"@ && ext != "otf"@ ==> format_name(ext) == ext,
{
    reveal_strlit("ttf");
    reveal_strlit("otf");
    assert("ttf"@[0] == 't' && "otf"@[0] == 'o');
}

/// How a style sheet names a file.
pub open spec fn file_source(name: Seq<char>) -> Seq<char> {
    "url('"@ + name + "') format('"@ + format_name(lower_extension(name)) + "')"@
}

fn write_source(name: &str) -> (r: String)
    ensures
        r@ == file_source(name@),
{
    let ext: String = lowered_extension(name);
    let mut r: String = "url('".to_owned();
    r.append(name);
    r.append("') format('");
    if text_eq(ext.as_str(), "ttf") {
        r.append("truetype");
    } else if text_eq(ext.as_str(), "otf") {
        r.append("opentype");
    } else {
        r.append(ext.as_str());
    }
    r.append("')");
    r
}

/// Whether a font is for this style and weight: its name says so, without regard to case.
pub open spec fn is_for(name: Seq<char>, italic: bool, bold: bool) -> bool {
    let low = crate::text::lowercased(name);
    crate::text::contains_text(low, "italic"@) == italic && crate::text::contains_text(low, "bold"@)
        == bold
}

/// The sources of the fonts for a style and a weight.
pub open spec fn sources_for<S>(files: Seq<FontFile<S>>, italic: bool, bold: bool) -> Seq<Seq<char>>
    decreases files.len(),
{
    if files.len() == 0 {
        Seq::empty()
    } else {
        let init = sources_for(files.drop_last(), italic, bold);
        if is_for(files.last().name@, italic, bold) {
            init.push(file_source(files.last().name@))
        } else {
            init
        }
    }
}

/// The rule of a style sheet for a style and a weight.
pub open spec fn font_face(family: Seq<char>, sources: Seq<Seq<char>>, italic: bool, bold: bool) -> Seq<char> {
    "@font-face {\n    font-family: '"@ + family + "';\n    src: "@ + crate::text::joined(
        sources,
        ","@,
    ) + ";\n    font-weight: "@ + (if bold {
        "bold"@
    } else {
        "normal"@
    }) + ";\n    font-style: "@ + (if italic {
        "italic"@
    } else {
        "normal"@
    }) + ";\n}\n"@
}

/// The rule for a style and a weight, if there are fonts for it.
pub open spec fn rule_for<S>(family: Seq<char>, files: Seq<FontFile<S>>, italic: bool, bold: bool) -> Seq<
    Seq<char>,
> {
    let sources = sources_for(files, italic, bold);
    if sources.len() == 0 {
        Seq::empty()
    } else {
        seq![font_face(family, sources, italic, bold)]
    }
}

/// The style sheet of a family: a rule for each style and weight that it has fonts for.
pub open spec fn family_css<S>(family: Seq<char>, files: Seq<FontFile<S>>) -> Seq<char> {
    crate::text::joined(
        rule_for(family, files, true, true) + rule_for(family, files, true, false) + rule_for(
            family,
            files,
            false,
            true,
        ) + rule_for(family, files, false, false),
        "\n"@,
    )
}

/// Every font is a source of the rule for the style that its name tells, and a rule has no other
/// sources.
pub proof fn font_is_offered_for_its_style<S>(files: Seq<FontFile<S>>, i: int, italic: bool, bold: bool)
    ensures
        0 <= i < files.len() && italic == crate::text::contains_text(
            crate::text::lowercased(files[i].name@),
            "italic"@,
        ) && bold == crate::text::contains_text(crate::text::lowercased(files[i].name@), "bold"@)
            ==> sources_for(files, italic, bold).contains(file_source(files[i].name@)),
        0 <= i < sources_for(files, italic, bold).len() ==> exists|k: int|
            0 <= k < files.len() && file_source((#[trigger] files[k]).name@) == sources_for(
                files,
                italic,
                bold,
            )[i] && (italic <==> crate::text::contains_text(
                crate::text::lowercased(files[k].name@),
                "italic"@,
            )) && (bold <==> crate::text::contains_text(
                crate::text::lowercased(files[k].name@),
                "bold"@,
            )),
    decreases files.len(),
{
    if files.len() > 0 {
        let rest = files.drop_last();
        let init = sources_for(rest, italic, bold);
        let all = sources_for(files, italic, bold);
        font_is_offered_for_its_style(rest, i, italic, bold);
        if 0 <= i < files.len() && is_for(files[i].name@, italic, bold) {
            let source = file_source(files[i].name@);
            if i < rest.len() {
                let k = choose|k: int| 0 <= k < init.len() && init[k] == source;
                assert(all[k] == source);
            } else {
                assert(all[init.len() as int] == source);
            }
        }
        if 0 <= i < all.len() {
            if i < init.len() {
                let k = choose|k: int|
                    0 <= k < rest.len() && file_source((#[trigger] rest[k]).name@) == init[i] && (
                    italic <==> crate::text::contains_text(
                        crate::text::lowercased(rest[k].name@),
                        "italic"@,
                    )) && (bold <==> crate::text::contains_text(
                        crate::text::lowercased(rest[k].name@),
                        "bold"@,
                    ));
                assert(files[k] == rest[k]);
            } else {
                assert(files[files.len() - 1].name@ == files.last().name@);
            }
        }
    }
}

/// The end of a rule for fonts of this weight and this style.
pub open spec fn rule_end(weight: Seq<char>, style: Seq<char>) -> Seq<char> {
    ";\n    font-weight: "@ + weight + ";\n    font-style: "@ + style + ";\n}\n"@
}

/// Whether a rule has this family at its start and this style and weight at its end.
pub open spec fn has_frame(
    rule: Seq<char>,
    family: Seq<char>,
    middle: Seq<char>,
    italic: bool,
    bold: bool,
) -> bool {
    rule == "@font-face {\n    font-family: '"@ + family + "';\n    src: "@ + middle + rule_end(
        if bold {
            "bold"@
        } else {
            "normal"@
        },
        if italic {
            "italic"@
        } else {
            "normal"@
        },
    )
}

/// A rule starts with its family, holds its sources, and ends with its weight and its style.
pub proof fn rule_tells_what_it_is_for(
    family: Seq<char>,
    sources: Seq<Seq<char>>,
    italic: bool,
    bold: bool,
    i: int,
)
    ensures
        exists|middle: Seq<char>| #[trigger]
            has_frame(font_face(family, sources, italic, bold), family, middle, italic, bold),
        0 <= i < sources.len() ==> crate::text::contains_text(
            font_face(family, sources, italic, bold),
            sources[i],
        ),
{
    let head = "@font-face {\n    font-family: '"@ + family + "';\n    src: "@;
    let middle = crate::text::joined(sources, ","@);
    let end = rule_end(
        if bold {
            "bold"@
        } else {
            "normal"@
        },
        if italic {
            "italic"@
        } else {
            "normal"@
        },
    );
    assert(head + middle + end =~= font_face(family, sources, italic, bold));
    assert(has_frame(font_face(family, sources, italic, bold), family, middle, italic, bold));
    if 0 <= i < sources.len() {
        crate::text::joined_texts_hold_each(sources, ","@, i);
        crate::text::part_stands_in_the_whole(head, middle, end, sources[i]);
    }
}

proof fn lemma_rule_is_in_the_sheet<S>(
    family: Seq<char>,
    files: Seq<FontFile<S>>,
    italic: bool,
    bold: bool,
)
    requires
        sources_for(files, italic, bold).len() > 0,
    ensures
        crate::text::contains_text(
            family_css(family, files),
            font_face(family, sources_for(files, italic, bold), italic, bold),
        ),
{
    let a = rule_for(family, files, true, true);
    let b = rule_for(family, files, true, false);
    let c = rule_for(family, files, false, true);
    let d = rule_for(family, files, false, false);
    let own = rule_for(family, files, italic, bold);
    let at: int = if italic && bold {
        0
    } else if italic {
        a.len() as int
    } else if bold {
        (a.len() + b.len()) as int
    } else {
        (a.len() + b.len() + c.len()) as int
    };
    lemma_in_order(a, b, c, d, own, at);
    crate::text::joined_texts_hold_each(a + b + c + d, "\n"@, at);
}

proof fn lemma_in_order(
    a: Seq<Seq<char>>,
    b: Seq<Seq<char>>,
    c: Seq<Seq<char>>,
    d: Seq<Seq<char>>,
    own: Seq<Seq<char>>,
    at: int,
)
    requires
        own.len() == 1,
        (own == a && at == 0) || (own == b && at == a.len()) || (own == c && at == a.len() + b.len())
            || (own == d && at == a.len() + b.len() + c.len()),
    ensures
        0 <= at < (a + b + c + d).len(),
        (a + b + c + d)[at] == own[0],
{
}

proof fn lemma_source_names_its_file(name: Seq<char>)
    ensures
        crate::text::contains_text(file_source(name), "url('"@ + name + "') format('"@),
{
    let none = Seq::<char>::empty();
    let named = "url('"@ + name + "') format('"@;
    let end = format_name(lower_extension(name)) + "')"@;
    crate::text::part_stands_in_the_whole(none, named, end, named);
    assert(none + named + end =~= file_source(name));
}

/// The style sheet of a family offers every font of it: it has the rule for the style of the font, with
/// the file and its format in it.
pub proof fn style_sheet_offers_every_font<S>(
    family: Seq<char>,
    files: Seq<FontFile<S>>,
    i: int,
    italic: bool,
    bold: bool,
)
    requires
        0 <= i < files.len(),
        italic == crate::text::contains_text(crate::text::lowercased(files[i].name@), "italic"@),
        bold == crate::text::contains_text(crate::text::lowercased(files[i].name@), "bold"@),
    ensures
        crate::text::contains_text(
            family_css(family, files),
            font_face(family, sources_for(files, italic, bold), italic, bold),
        ),
        crate::text::contains_text(
            family_css(family, files),
            "url('"@ + files[i].name@ + "') format('"@,
        ),
{
    font_is_offered_for_its_style(files, i, italic, bold);
    let source = file_source(files[i].name@);
    let sources = sources_for(files, italic, bold);
    let k = choose|k: int| 0 <= k < sources.len() && sources[k] == source;
    let face = font_face(family, sources, italic, bold);
    let named = "url('"@ + files[i].name@ + "') format('"@;
    rule_tells_what_it_is_for(family, sources, italic, bold, k);
    lemma_rule_is_in_the_sheet(family, files, italic, bold);
    lemma_source_names_its_file(files[i].name@);
    crate::text::lemma_contains_through(face, source, named);
    crate::text::lemma_contains_through(family_css(family, files), face, named);
}

fn push_rule<S>(
    rules: &mut Vec<String>,
    family: &str,
    files: &Vec<FontFile<S>>,
    italic: bool,
    bold: bool,
)
    ensures
        final(rules).deep_view() == old(rules).deep_view() + rule_for(family@, files@, italic, bold),
{
    let mut sources: Vec<String> = Vec::new();
    let mut i: usize = 0;
    assert(sources.deep_view() =~= Seq::<Seq<char>>::empty());
    while i < files.len()
        invariant
            i <= files.len(),
            sources.deep_view() == sources_for(files@.take(i as int), italic, bold),
        decreases files.len() - i,
    {
        assert(files@.take(i as int + 1).drop_last() =~= files@.take(i as int));
        assert(files@.take(i as int + 1).last() == files@[i as int]);
        let low: String = lowercase(files[i].name.as_str());
        if contains(low.as_str(), "italic") == italic && contains(low.as_str(), "bold") == bold {
            let ghost before = sources.deep_view();
            let source: String = write_source(files[i].name.as_str());
            sources.push(source);
            assert(sources.deep_view() =~= before.push(source@));
        }
        i += 1;
    }
    assert(files@.take(files@.len() as int) =~= files@);
    assert(sources.deep_view().len() == sources.len());
    let ghost start = rules.deep_view();
    if sources.len() > 0 {
        let mut rule: String = "@font-face {\n    font-family: '".to_owned();
        rule.append(family);
        rule.append("';\n    src: ");
        rule.append(join(&sources, ",").as_str());
        rule.append(";\n    font-weight: ");
        rule.append(if bold { "bold" } else { "normal" });
        rule.append(";\n    font-style: ");
        rule.append(if italic { "italic" } else { "normal" });
        rule.append(";\n}\n");
        rules.push(rule);
        assert(rules.deep_view() =~= start.push(rule@));
    }
    assert(rules.deep_view() =~= start + rule_for(family@, files@, italic, bold));
}

/// Writes the style sheet of a family.
pub fn font_family_css<S>(family: &str, files: &Vec<FontFile<S>>) -> (r: String)
    ensures
        r@ == family_css(family@, files@),
{
    let mut rules: Vec<String> = Vec::new();
    assert(rules.deep_view() =~= Seq::<Seq<char>>::empty());
    push_rule(&mut rules, family, files, true, true);
    assert(rules.deep_view() =~= rule_for(family@, files@, true, true));
    push_rule(&mut rules, family, files, true, false);
    push_rule(&mut rules, family, files, false, true);
    push_rule(&mut rules, family, files, false, false);
    join(&rules, "\n")
}

} // verus!
