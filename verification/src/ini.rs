//! Editing the text of a `php.ini` file.

use vstd::prelude::*;

use crate::text::{
    chars_eq, chars_of, crlf, has_prefix, join, join_chars, lacks, lemma_lines_lack_newline,
    lemma_lines_of_crlf_join, lemma_trim_ends, lemma_trim_fixed, lemma_trim_lacks, lines, lines_of, starts_with,
    string_of, trim, trim_chars, views,
};

verus! {

broadcast use vstd::string::group_string_axioms;

/// The index of the first line that satisfies `p`, if any.
pub open spec fn first_where(ls: Seq<Seq<char>>, p: spec_fn(Seq<char>) -> bool) -> Option<int>
    decreases ls.len(),
{
    if ls.len() == 0 {
        None
    } else {
        match first_where(ls.drop_last(), p) {
            Some(i) => Some(i),
            None => if p(ls.last()) {
                Some(ls.len() - 1)
            } else {
                None
            },
        }
    }
}

/// The line that loads extension `ext`.
pub open spec fn enabled_line(ext: Seq<char>) -> Seq<char> {
    "extension="@ + ext
}

/// The commented-out line that would load extension `ext`.
pub open spec fn disabled_line(ext: Seq<char>) -> Seq<char> {
    ";extension="@ + ext
}

/// A line that, once trimmed, is exactly `target`.
pub open spec fn trims_to(target: Seq<char>) -> spec_fn(Seq<char>) -> bool {
    |l: Seq<char>| trim(l) == target
}

/// What enabling an extension in a `php.ini` text comes to.
#[derive(Debug)]
pub enum ExtensionEdit {
    /// A line already loads the extension; nothing is written.
    AlreadyEnabled,
    /// The first commented-out line for the extension is uncommented; the new text.
    Enabled(String),
    /// No line mentions the extension; nothing is written.
    NotListed,
}

/// The abstract form of an [`ExtensionEdit`].
pub enum ExtensionEditView {
    AlreadyEnabled,
    Enabled(Seq<char>),
    NotListed,
}

impl View for ExtensionEdit {
    type V = ExtensionEditView;

    open spec fn view(&self) -> ExtensionEditView {
        match self {
            ExtensionEdit::AlreadyEnabled => ExtensionEditView::AlreadyEnabled,
            ExtensionEdit::Enabled(s) => ExtensionEditView::Enabled(s@),
            ExtensionEdit::NotListed => ExtensionEditView::NotListed,
        }
    }
}

/// Enabling extension `ext` in the text `content`: if some line, trimmed, reads
/// `extension=<ext>`, it is already enabled; otherwise the first line that, trimmed,
/// reads `;extension=<ext>` becomes `extension=<ext>` and the lines are joined with
/// `\r\n`; otherwise the extension is not listed.
pub open spec fn extension_edit(content: Seq<char>, ext: Seq<char>) -> ExtensionEditView {
    let ls = lines(content);
    if first_where(ls, trims_to(enabled_line(ext))) is Some {
        ExtensionEditView::AlreadyEnabled
    } else {
        match first_where(ls, trims_to(disabled_line(ext))) {
            Some(i) => ExtensionEditView::Enabled(join(ls.update(i, enabled_line(ext)), crlf())),
            None => ExtensionEditView::NotListed,
        }
    }
}

/// The replacement for the line that sets the extension directory.
pub open spec fn extension_dir_line() -> Seq<char> {
    "extension_dir = \"ext\""@
}

/// A line that starts with `p1` or with `p2`.
pub open spec fn starts_with_either(p1: Seq<char>, p2: Seq<char>) -> spec_fn(Seq<char>) -> bool {
    |l: Seq<char>| has_prefix(l, p1) || has_prefix(l, p2)
}

/// A line that sets (or comments out) the extension directory.
pub open spec fn sets_extension_dir() -> spec_fn(Seq<char>) -> bool {
    starts_with_either("extension_dir"@, ";extension_dir"@)
}

/// A line that comments out the curl extension.
pub open spec fn comments_out_curl() -> spec_fn(Seq<char>) -> bool {
    starts_with_either(";extension=curl"@, ";extension=curl"@)
}

/// `ls` with line `i` replaced by `line`, where there is such an index.
pub open spec fn replace_at(ls: Seq<Seq<char>>, i: Option<int>, line: Seq<char>) -> Seq<Seq<char>> {
    match i {
        Some(k) => ls.update(k, line),
        None => ls,
    }
}

/// The `php.ini` text after a fresh install is configured: the first line that
/// starts with `extension_dir` or `;extension_dir` becomes `extension_dir = "ext"`,
/// then the first line that starts with `;extension=curl` becomes `extension=curl`,
/// and the lines are joined with `\r\n`.
pub open spec fn configured_ini(content: Seq<char>) -> Seq<char> {
    let ls = lines(content);
    let with_dir = replace_at(ls, first_where(ls, sets_extension_dir()), extension_dir_line());
    let with_curl = replace_at(
        with_dir,
        first_where(with_dir, comments_out_curl()),
        "extension=curl"@,
    );
    join(with_curl, crlf())
}

fn first_trimmed_equal(ls: &Vec<Vec<char>>, target: &[char]) -> (res: Option<usize>)
    ensures
        match res {
            Some(k) => first_where(views(ls@), trims_to(target@)) == Some(k as int) && k < ls@.len(),
            None => first_where(views(ls@), trims_to(target@)) is None,
        },
{
    let n = ls.len();
    assert(views(ls@).take(0) =~= Seq::<Seq<char>>::empty());
    for i in 0..n
        invariant
            n == ls@.len(),
            first_where(views(ls@).take(i as int), trims_to(target@)) is None,
    {
        let t = trim_chars(ls[i].as_slice());
        assert(views(ls@).take(i + 1).drop_last() =~= views(ls@).take(i as int));
        if chars_eq(t.as_slice(), target) {
            proof {
                lemma_first_where_prefix(views(ls@), trims_to(target@), i as int);
            }
            return Some(i);
        }
    }
    assert(views(ls@).take(n as int) =~= views(ls@));
    None
}

/// A match found in a prefix is the first match in the whole list.
pub proof fn lemma_first_where_prefix(ls: Seq<Seq<char>>, p: spec_fn(Seq<char>) -> bool, i: int)
    requires
        0 <= i < ls.len(),
        first_where(ls.take(i), p) is None,
        p(ls[i]),
    ensures
        first_where(ls, p) == Some(i),
    decreases ls.len(),
{
    assert(ls.take(i + 1).drop_last() =~= ls.take(i));
    if i + 1 < ls.len() {
        assert(ls.drop_last().take(i) =~= ls.take(i));
        lemma_first_where_prefix(ls.drop_last(), p, i);
    } else {
        assert(ls.take(i + 1) =~= ls);
    }
}

/// The first match, if any, satisfies the predicate and no earlier line does.
pub proof fn lemma_first_where_found(ls: Seq<Seq<char>>, p: spec_fn(Seq<char>) -> bool)
    ensures
        match first_where(ls, p) {
            Some(i) => 0 <= i < ls.len() && p(ls[i]) && forall|j: int| 0 <= j < i ==> !p(#[trigger] ls[j]),
            None => forall|j: int| 0 <= j < ls.len() ==> !p(#[trigger] ls[j]),
        },
    decreases ls.len(),
{
    if ls.len() > 0 {
        lemma_first_where_found(ls.drop_last(), p);
        match first_where(ls.drop_last(), p) {
            Some(i) => {
                assert forall|j: int| 0 <= j < i implies !p(#[trigger] ls[j]) by {
                    assert(ls[j] == ls.drop_last()[j]);
                }
                assert(ls[i] == ls.drop_last()[i]);
            },
            None => {
                assert forall|j: int| 0 <= j < ls.len() - 1 implies !p(#[trigger] ls[j]) by {
                    assert(ls[j] == ls.drop_last()[j]);
                }
            },
        }
    }
}

/// Enables extension `ext` in the `php.ini` text `content`, as [`extension_edit`] says.
pub fn enable_extension(content: &str, ext: &str) -> (res: ExtensionEdit)
    ensures
        res@ == extension_edit(content@, ext@),
{
    let mut enabled = chars_of("extension=");
    let mut disabled = chars_of(";extension=");
    let e = chars_of(ext);
    crate::text::append_chars(&mut enabled, e.as_slice());
    crate::text::append_chars(&mut disabled, e.as_slice());
    assert(enabled@ == enabled_line(ext@));
    assert(disabled@ == disabled_line(ext@));
    let c = chars_of(content);
    let mut ls = lines_of(c.as_slice());
    if first_trimmed_equal(&ls, enabled.as_slice()).is_some() {
        return ExtensionEdit::AlreadyEnabled;
    }
    match first_trimmed_equal(&ls, disabled.as_slice()) {
        Some(i) => {
            let ghost before = views(ls@);
            ls.set(i, enabled);
            assert(views(ls@) =~= before.update(i as int, enabled_line(ext@)));
            let sep: [char; 2] = ['\r', '\n'];
            let joined = join_chars(&ls, sep.as_slice());
            assert(sep@ =~= crlf());
            ExtensionEdit::Enabled(string_of(joined.as_slice()))
        },
        None => ExtensionEdit::NotListed,
    }
}

fn first_with_prefixes(ls: &Vec<Vec<char>>, p1: &[char], p2: &[char]) -> (res: Option<usize>)
    ensures
        match res {
            Some(k) => first_where(views(ls@), starts_with_either(p1@, p2@)) == Some(k as int) && k
                < ls@.len(),
            None => first_where(views(ls@), starts_with_either(p1@, p2@)) is None,
        },
{
    let ghost p = starts_with_either(p1@, p2@);
    let n = ls.len();
    assert(views(ls@).take(0) =~= Seq::<Seq<char>>::empty());
    for i in 0..n
        invariant
            n == ls@.len(),
            p == starts_with_either(p1@, p2@),
            first_where(views(ls@).take(i as int), p) is None,
    {
        assert(views(ls@).take(i + 1).drop_last() =~= views(ls@).take(i as int));
        if starts_with(ls[i].as_slice(), p1) || starts_with(ls[i].as_slice(), p2) {
            proof {
                lemma_first_where_prefix(views(ls@), p, i as int);
            }
            return Some(i);
        }
    }
    assert(views(ls@).take(n as int) =~= views(ls@));
    None
}

/// Configures a freshly installed `php.ini` text, as [`configured_ini`] says.
pub fn configure_ini_content(content: &str) -> (res: String)
    ensures
        res@ == configured_ini(content@),
{
    let c = chars_of(content);
    let mut ls = lines_of(c.as_slice());
    let dir1 = chars_of("extension_dir");
    let dir2 = chars_of(";extension_dir");
    let ghost ls0 = views(ls@);
    let found_dir = first_with_prefixes(&ls, dir1.as_slice(), dir2.as_slice());
    match found_dir {
        Some(i) => {
            let line = chars_of("extension_dir = \"ext\"");
            ls.set(i, line);
            assert(views(ls@) =~= ls0.update(i as int, extension_dir_line()));
        },
        None => {},
    }
    let ghost ls1 = views(ls@);
    assert(ls1 =~= replace_at(ls0, first_where(ls0, sets_extension_dir()), extension_dir_line()));
    let curl = chars_of(";extension=curl");
    let found_curl = first_with_prefixes(&ls, curl.as_slice(), curl.as_slice());
    match found_curl {
        Some(i) => {
            let line = chars_of("extension=curl");
            ls.set(i, line);
            assert(views(ls@) =~= ls1.update(i as int, "extension=curl"@));
        },
        None => {},
    }
    assert(views(ls@) =~= replace_at(ls1, first_where(ls1, comments_out_curl()), "extension=curl"@));
    let sep: [char; 2] = ['\r', '\n'];
    let joined = join_chars(&ls, sep.as_slice());
    assert(sep@ =~= crlf());
    string_of(joined.as_slice())
}

/// A line that starts with `;extension=curl` never starts with `extension_dir` or
/// `;extension_dir`, and the new `extension_dir` line does not start with `;extension=curl`.
proof fn lemma_curl_and_dir_lines_apart(l: Seq<char>)
    ensures
        has_prefix(l, ";extension=curl"@) ==> !has_prefix(l, "extension_dir"@) && !has_prefix(
            l,
            ";extension_dir"@,
        ),
        !has_prefix(extension_dir_line(), ";extension=curl"@),
{
    reveal_strlit(";extension=curl");
    reveal_strlit("extension_dir");
    reveal_strlit(";extension_dir");
    reveal_strlit("extension_dir = \"ext\"");
    if has_prefix(l, ";extension=curl"@) {
        assert(l.subrange(0, 15)[0] == l[0]);
        assert(l.subrange(0, 15)[10] == l[10]);
        assert(l[0] == ';');
        assert(l[10] == '=');
        if has_prefix(l, "extension_dir"@) {
            assert(l.subrange(0, 13)[0] == 'e');
        }
        if has_prefix(l, ";extension_dir"@) {
            assert(l.subrange(0, 14)[10] == '_');
        }
    }
    if has_prefix(extension_dir_line(), ";extension=curl"@) {
        assert(extension_dir_line().subrange(0, 15)[0] == ';');
    }
}

/// Configuring a fresh `php.ini` text: the lines come out joined with `\r\n`, one for one,
/// where the first line that starts with `extension_dir` or `;extension_dir` reads
/// `extension_dir = "ext"`, the first line that starts with `;extension=curl` reads
/// `extension=curl`, and every other line is kept as it was.
pub proof fn lemma_configured_ini_lines(content: Seq<char>)
    ensures
        exists|out: Seq<Seq<char>>|
            #![trigger join(out, crlf())]
            configured_ini(content) == join(out, crlf()) && out.len() == lines(content).len() && forall|k: int|
                #![trigger out[k]]
                0 <= k < out.len() ==> out[k] == (if (has_prefix(lines(content)[k], "extension_dir"@)
                    || has_prefix(lines(content)[k], ";extension_dir"@)) && forall|j: int|
                    #![trigger lines(content)[j]]
                    0 <= j < k ==> !has_prefix(lines(content)[j], "extension_dir"@) && !has_prefix(
                        lines(content)[j],
                        ";extension_dir"@,
                    ) {
                    "extension_dir = \"ext\""@
                } else if has_prefix(lines(content)[k], ";extension=curl"@) && forall|j: int|
                    #![trigger lines(content)[j]]
                    0 <= j < k ==> !has_prefix(lines(content)[j], ";extension=curl"@) {
                    "extension=curl"@
                } else {
                    lines(content)[k]
                }),
{
    let ls = lines(content);
    let dir_p = sets_extension_dir();
    let curl_p = comments_out_curl();
    let d = first_where(ls, dir_p);
    lemma_first_where_found(ls, dir_p);
    let with_dir = replace_at(ls, d, extension_dir_line());
    let c = first_where(with_dir, curl_p);
    lemma_first_where_found(with_dir, curl_p);
    let out = replace_at(with_dir, c, "extension=curl"@);
    assert(with_dir.len() == ls.len());
    assert(out.len() == ls.len());
    // A line of `with_dir` opens with `;extension=curl` exactly when the line of `ls` does.
    assert forall|k: int| 0 <= k < ls.len() implies #[trigger] curl_p(with_dir[k]) == curl_p(ls[k]) by {
        lemma_curl_and_dir_lines_apart(ls[k]);
        lemma_curl_and_dir_lines_apart(with_dir[k]);
        if d == Some(k) {
            assert(dir_p(ls[k]));
            assert(with_dir[k] == extension_dir_line());
        } else {
            assert(with_dir[k] == ls[k]);
        }
    }
    assert forall|k: int| 0 <= k < out.len() implies #[trigger] out[k] == (if (has_prefix(ls[k], "extension_dir"@)
        || has_prefix(ls[k], ";extension_dir"@)) && forall|j: int|
        #![trigger ls[j]]
        0 <= j < k ==> !has_prefix(ls[j], "extension_dir"@) && !has_prefix(ls[j], ";extension_dir"@) {
        "extension_dir = \"ext\""@
    } else if has_prefix(ls[k], ";extension=curl"@) && forall|j: int|
        #![trigger ls[j]]
        0 <= j < k ==> !has_prefix(ls[j], ";extension=curl"@) {
        "extension=curl"@
    } else {
        ls[k]
    }) by {
        let first_dir = (has_prefix(ls[k], "extension_dir"@) || has_prefix(ls[k], ";extension_dir"@)) && forall|
            j: int,
        |
            #![trigger ls[j]]
            0 <= j < k ==> !has_prefix(ls[j], "extension_dir"@) && !has_prefix(ls[j], ";extension_dir"@);
        let first_curl = has_prefix(ls[k], ";extension=curl"@) && forall|j: int|
            #![trigger ls[j]]
            0 <= j < k ==> !has_prefix(ls[j], ";extension=curl"@);
        // `d` is the index of the first line that sets the directory.
        assert(first_dir <==> d == Some(k)) by {
            if first_dir {
                assert(dir_p(ls[k]));
                if d is Some {
                    let i = d->Some_0;
                    if i < k {
                        assert(dir_p(ls[i]));
                    } else if k < i {
                        assert(!dir_p(ls[k]));
                    }
                }
            }
            if d == Some(k) {
                assert forall|j: int| 0 <= j < k implies !has_prefix(#[trigger] ls[j], "extension_dir"@)
                    && !has_prefix(ls[j], ";extension_dir"@) by {
                    assert(!dir_p(ls[j]));
                }
            }
        }
        // `c` is the index of the first line that comments out curl.
        assert(first_curl <==> c == Some(k)) by {
            assert(curl_p(with_dir[k]) == curl_p(ls[k]));
            if first_curl {
                assert(curl_p(with_dir[k]));
                if c is Some {
                    let i = c->Some_0;
                    if i < k {
                        assert(curl_p(with_dir[i]) == curl_p(ls[i]));
                        assert(!has_prefix(ls[i], ";extension=curl"@));
                    } else if k < i {
                        assert(!curl_p(with_dir[k]));
                    }
                }
            }
            if c == Some(k) {
                assert forall|j: int| 0 <= j < k implies !has_prefix(#[trigger] ls[j], ";extension=curl"@) by {
                    assert(!curl_p(with_dir[j]));
                    assert(curl_p(with_dir[j]) == curl_p(ls[j]));
                }
            }
        }
        if first_dir {
            lemma_curl_and_dir_lines_apart(ls[k]);
            assert(!curl_p(ls[k]));
            assert(c != Some(k));
            assert(out[k] == with_dir[k]);
        } else if c == Some(k) {
        } else {
            assert(out[k] == with_dir[k]);
            assert(with_dir[k] == ls[k]);
        }
    }
    assert(configured_ini(content) == join(out, crlf()));
}

/// Enabling an extension that is not enabled yet uncomments exactly one line: no line,
/// trimmed, reads `extension=<ext>`; the first line that, trimmed, reads
/// `;extension=<ext>` becomes `extension=<ext>`; every other line is kept as it was.
pub proof fn lemma_enable_extension_uncomments_line(content: Seq<char>, ext: Seq<char>)
    requires
        extension_edit(content, ext) is Enabled,
    ensures
        ({
            let before = lines(content);
            let after = lines(extension_edit(content, ext)->Enabled_0);
            &&& forall|j: int| 0 <= j < before.len() ==> trim(#[trigger] before[j]) != "extension="@ + ext
            &&& exists|i: int|
                #![trigger before[i]]
                0 <= i < before.len() && trim(before[i]) == ";extension="@ + ext && after == (if before.last().len()
                    == 0 {
                    before.update(i, "extension="@ + ext).drop_last()
                } else {
                    before.update(i, "extension="@ + ext)
                }) && i < after.len() && trim(after[i]) == "extension="@ + ext && forall|j: int|
                    0 <= j < i ==> trim(#[trigger] before[j]) != ";extension="@ + ext
        }),
{
    reveal_strlit("extension=");
    let ls = lines(content);
    lemma_first_where_found(ls, trims_to(enabled_line(ext)));
    let i = first_where(ls, trims_to(disabled_line(ext)))->Some_0;
    lemma_first_where_found(ls, trims_to(disabled_line(ext)));
    assert forall|j: int| 0 <= j < ls.len() implies trim(#[trigger] ls[j]) != "extension="@ + ext by {
        assert(!trims_to(enabled_line(ext))(ls[j]));
    }
    assert forall|j: int| 0 <= j < i implies trim(#[trigger] ls[j]) != ";extension="@ + ext by {
        assert(!trims_to(disabled_line(ext))(ls[j]));
    }
    let on = enabled_line(ext);
    // The uncommented line is its own trim and holds no line break.
    lemma_trim_ends(ls[i]);
    assert(trim(ls[i]) == disabled_line(ext));
    assert(";extension="@ =~= seq![';'] + "extension="@) by {
        reveal_strlit(";extension=");
        reveal_strlit("extension=");
    }
    assert(disabled_line(ext) =~= seq![';'] + on);
    assert(on[0] == 'e') by {
        reveal_strlit("extension=");
    }
    assert(on.last() == disabled_line(ext).last());
    lemma_trim_fixed(on);
    lemma_lines_lack_newline(content);
    assert(lacks(ls[i], '\n'));
    lemma_trim_lacks(ls[i], '\n');
    assert(lacks(on, '\n')) by {
        assert forall|k: int| 0 <= k < on.len() implies on[k] != '\n' by {
            assert(on[k] == trim(ls[i])[k + 1]);
        }
    }
    let updated = ls.update(i, on);
    assert forall|k: int| 0 <= k < updated.len() implies lacks(#[trigger] updated[k], '\n') by {
        if k != i {
            assert(updated[k] == ls[k]);
        }
    }
    lemma_lines_of_crlf_join(updated);
    assert(extension_edit(content, ext) == ExtensionEditView::Enabled(join(updated, crlf())));
    let after = lines(extension_edit(content, ext)->Enabled_0);
    assert(trim(ls[i]) == ";extension="@ + ext);
    assert(ls[i].len() > 0);
    assert(after[i] == on);
    assert(trim(after[i]) == "extension="@ + ext);
}

/// Enabling an extension twice: once it has been uncommented, a second attempt
/// finds it already enabled.
pub proof fn lemma_enable_extension_idempotent(content: Seq<char>, ext: Seq<char>)
    requires
        extension_edit(content, ext) is Enabled,
    ensures
        extension_edit(extension_edit(content, ext)->Enabled_0, ext)
            == ExtensionEditView::AlreadyEnabled,
{
    lemma_enable_extension_uncomments_line(content, ext);
    let ls = lines(content);
    let on = enabled_line(ext);
    let i = choose|i: int|
        #![trigger ls[i]]
        0 <= i < ls.len() && trim(ls[i]) == ";extension="@ + ext && i < lines(
            extension_edit(content, ext)->Enabled_0,
        ).len() && trim(
            lines(extension_edit(content, ext)->Enabled_0)[i],
        ) == "extension="@ + ext && forall|j: int|
            0 <= j < i ==> trim(#[trigger] ls[j]) != ";extension="@ + ext;
    let again = lines(extension_edit(content, ext)->Enabled_0);
    assert(again[i] == on);
    lemma_first_where_found(again, trims_to(on));
    assert(trims_to(on)(again[i]));
}

} // verus!
