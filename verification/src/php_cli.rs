//! Reading what the PHP interpreter prints, and naming extension libraries.

use vstd::prelude::*;

use crate::ini::{first_where, lemma_first_where_prefix};
use crate::text::{
    chars_eq, chars_of, has_prefix, has_suffix, lines, lines_of, lowercase, non_empty,
    non_empty_pieces, pad_right, pad_right_string, starts_with, ends_with, string_of, sub_chars,
    to_lowercase, trim, trim_chars, views, words, words_of,
};

verus! {

broadcast use vstd::string::group_string_axioms;

/// Why the output of `php -v` named no version.
#[derive(Debug, Clone, Copy, PartialEq, Eq, Structural)]
pub enum PhpOutputError {
    /// The output has no line.
    EmptyOutput,
    /// The first line does not read `PHP <version> ...`.
    UnexpectedFormat,
}

/// The version that `php -v` reports: the second word of the first line, when the first
/// word is `PHP`.
pub open spec fn reported_version(out: Seq<char>) -> Result<Seq<char>, PhpOutputError> {
    let ls = lines(out);
    if ls.len() == 0 {
        Err(PhpOutputError::EmptyOutput)
    } else {
        let w = words(ls[0]);
        if w.len() > 1 && w[0] == "PHP"@ {
            Ok(w[1])
        } else {
            Err(PhpOutputError::UnexpectedFormat)
        }
    }
}

/// Reads the version from the output of `php -v`, as [`reported_version`] says.
pub fn parse_php_version_output(out: &str) -> (res: Result<String, PhpOutputError>)
    ensures
        match res {
            Ok(v) => reported_version(out@) == Ok::<Seq<char>, PhpOutputError>(v@),
            Err(e) => reported_version(out@) == Err::<Seq<char>, PhpOutputError>(e),
        },
{
    let c = chars_of(out);
    let ls = lines_of(c.as_slice());
    if ls.len() == 0 {
        return Err(PhpOutputError::EmptyOutput);
    }
    assert(views(ls@)[0] == ls@[0]@);
    let w = words_of(ls[0].as_slice());
    let php = chars_of("PHP");
    if w.len() > 1 && chars_eq(w[0].as_slice(), php.as_slice()) {
        assert(views(w@)[1] == w@[1]@);
        Ok(string_of(w[1].as_slice()))
    } else {
        proof {
            if w@.len() > 1 {
                assert(views(w@)[0] == w@[0]@);
            }
        }
        Err(PhpOutputError::UnexpectedFormat)
    }
}

/// A line that is exactly `target`.
pub open spec fn is_line(target: Seq<char>) -> spec_fn(Seq<char>) -> bool {
    |l: Seq<char>| l == target
}

/// The lines of the `[PHP Modules]` section of `php -m` output: the lines after the
/// first `[PHP Modules]` line, up to the first `[Zend Modules]` line after it (or the end).
pub open spec fn module_section(out: Seq<char>) -> Seq<Seq<char>> {
    let ls = lines(out);
    match first_where(ls, is_line("[PHP Modules]"@)) {
        None => Seq::<Seq<char>>::empty(),
        Some(i) => {
            let rest = ls.skip(i + 1);
            match first_where(rest, is_line("[Zend Modules]"@)) {
                Some(j) => rest.take(j),
                None => rest,
            }
        },
    }
}

/// The modules that `php -m` reports as loaded: the section's lines trimmed, the empty
/// ones left out, each in lower case.
pub open spec fn loaded_module_names(out: Seq<char>) -> Seq<Seq<char>> {
    non_empty(module_section(out).map_values(|l: Seq<char>| trim(l))).map_values(
        |l: Seq<char>| lowercase(l),
    )
}

fn first_line_equal(ls: &Vec<Vec<char>>, from: usize, target: &[char]) -> (res: Option<usize>)
    requires
        from <= ls@.len(),
    ensures
        match res {
            Some(k) => first_where(views(ls@).skip(from as int), is_line(target@)) == Some(k as int)
                && k < ls@.len() - from,
            None => first_where(views(ls@).skip(from as int), is_line(target@)) is None,
        },
{
    let n = ls.len();
    let ghost sv = views(ls@).skip(from as int);
    assert(sv.take(0) =~= Seq::<Seq<char>>::empty());
    let mut k: usize = 0;
    while from + k < n
        invariant
            from <= n,
            n == ls@.len(),
            from + k <= n,
            sv == views(ls@).skip(from as int),
            first_where(sv.take(k as int), is_line(target@)) is None,
        decreases n - from - k,
    {
        assert(sv.take(k + 1).drop_last() =~= sv.take(k as int));
        assert(sv[k as int] == ls@[from + k]@);
        if chars_eq(ls[from + k].as_slice(), target) {
            proof {
                lemma_first_where_prefix(sv, is_line(target@), k as int);
            }
            return Some(k);
        }
        k = k + 1;
    }
    assert(sv.take(k as int) =~= sv);
    None
}

/// The modules that `php -m` reports as loaded, as [`loaded_module_names`] says.
pub fn loaded_modules(out: &str) -> (res: Vec<String>)
    ensures
        res.deep_view() == loaded_module_names(out@),
{
    let c = chars_of(out);
    let ls = lines_of(c.as_slice());
    let ghost lv = views(ls@);
    let start_marker = chars_of("[PHP Modules]");
    let end_marker = chars_of("[Zend Modules]");
    assert(views(ls@).skip(0) =~= lv);
    let mut section: Vec<Vec<char>> = Vec::new();
    match first_line_equal(&ls, 0, start_marker.as_slice()) {
        None => {},
        Some(i) => {
            assert(i < ls.len());
            let from = i + 1;
            let stop = match first_line_equal(&ls, from, end_marker.as_slice()) {
                Some(j) => {
                    assert(from + j < ls.len());
                    from + j
                },
                None => ls.len(),
            };
            let ghost rest = lv.skip(from as int);
            for k in from..stop
                invariant
                    from <= stop <= ls@.len(),
                    lv == views(ls@),
                    rest == lv.skip(from as int),
                    views(section@) == rest.take(k - from).map_values(|l: Seq<char>| trim(l)),
            {
                let t = trim_chars(ls[k].as_slice());
                let ghost before = views(section@);
                section.push(t);
                assert(rest[k - from] == ls@[k as int]@);
                assert(views(section@) =~= before.push(trim(rest[k - from])));
                assert(rest.take(k + 1 - from).map_values(|l: Seq<char>| trim(l)) =~= rest.take(
                    k - from,
                ).map_values(|l: Seq<char>| trim(l)).push(trim(rest[k - from])));
            }
        },
    }
    assert(views(section@) == module_section(out@).map_values(|l: Seq<char>| trim(l))) by {
        assert(module_section(out@).map_values(|l: Seq<char>| trim(l)) =~= views(section@)) by {
            match first_where(lv, is_line("[PHP Modules]"@)) {
                None => {},
                Some(i) => {
                    let rest = lv.skip(i + 1);
                    match first_where(rest, is_line("[Zend Modules]"@)) {
                        Some(j) => {},
                        None => {
                            assert(rest.take(rest.len() as int) =~= rest);
                        },
                    }
                },
            }
        }
    }
    let names = non_empty_pieces(&section);
    let mut res: Vec<String> = Vec::new();
    let m = names.len();
    let ghost nv = views(names@);
    for k in 0..m
        invariant
            m == names@.len(),
            nv == views(names@),
            res.deep_view() == nv.take(k as int).map_values(|l: Seq<char>| lowercase(l)),
    {
        let s = string_of(names[k].as_slice());
        let low = to_lowercase(s.as_str());
        let ghost before = res.deep_view();
        res.push(low);
        assert(nv[k as int] == names@[k as int]@);
        assert(res.deep_view() =~= before.push(lowercase(nv[k as int])));
        assert(nv.take(k + 1).map_values(|l: Seq<char>| lowercase(l)) =~= nv.take(k as int).map_values(
            |l: Seq<char>| lowercase(l),
        ).push(lowercase(nv[k as int])));
    }
    assert(nv.take(m as int) =~= nv);
    res
}

/// The extension that a file of the extension directory holds: for a name
/// `php_<ext>.dll`, `<ext>` in lower case; nothing for other names.
pub open spec fn extension_of_file(name: Seq<char>) -> Option<Seq<char>> {
    if has_prefix(name, "php_"@) && has_suffix(name, ".dll"@) {
        Some(lowercase(name.subrange(4, name.len() - 4)))
    } else {
        None
    }
}

/// A name that starts with `php_` and ends with `.dll` has at least eight characters,
/// so the two never overlap.
proof fn lemma_prefix_suffix_apart(name: Seq<char>)
    requires
        has_prefix(name, "php_"@),
        has_suffix(name, ".dll"@),
    ensures
        name.len() >= 8,
{
    reveal_strlit("php_");
    reveal_strlit(".dll");
    if name.len() < 8 {
        let k = 3 - (name.len() - 4);
        assert(name.subrange(0, 4)[3] == name[3]);
        assert(name.subrange(name.len() - 4, name.len() as int)[k] == name[3]);
    }
}

/// The extension that the file `name` of the extension directory holds, as
/// [`extension_of_file`] says.
pub fn extension_from_file_name(name: &str) -> (res: Option<String>)
    ensures
        match res {
            Some(e) => extension_of_file(name@) == Some(e@),
            None => extension_of_file(name@) is None,
        },
{
    let v = chars_of(name);
    let pre = chars_of("php_");
    let suf = chars_of(".dll");
    if !starts_with(v.as_slice(), pre.as_slice()) || !ends_with(v.as_slice(), suf.as_slice()) {
        return None;
    }
    proof {
        lemma_prefix_suffix_apart(name@);
    }
    let middle = sub_chars(v.as_slice(), 4, v.len() - 4);
    let s = string_of(middle.as_slice());
    Some(to_lowercase(s.as_str()))
}

/// Every file named `php_<x>.dll` holds extension `<x>` (in lower case), whatever `<x>` is.
pub proof fn lemma_extension_of_dll_file(x: Seq<char>)
    ensures
        extension_of_file("php_"@ + x + ".dll"@) == Some(lowercase(x)),
{
    reveal_strlit("php_");
    reveal_strlit(".dll");
    let name = "php_"@ + x + ".dll"@;
    assert(name.subrange(0, 4) =~= "php_"@);
    assert(name.subrange(name.len() - 4, name.len() as int) =~= ".dll"@);
    assert(name.subrange(4, name.len() - 4) =~= x);
}

/// The line that `ext list` prints for an extension: its name padded to twenty
/// characters, a space, and `loaded` or `disabled`.
pub open spec fn extension_status_line(ext: Seq<char>, loaded: bool) -> Seq<char> {
    pad_right(ext, 20) + " "@ + (if loaded {
        "loaded"@
    } else {
        "disabled"@
    })
}

/// The lines that `ext list` prints for the files `file_names` of the extension directory
/// (in directory order), given the modules that `php -m` reports as loaded in `modules`.
pub open spec fn extension_list_lines(modules: Seq<Seq<char>>, file_names: Seq<Seq<char>>) -> Seq<Seq<char>>
    decreases file_names.len(),
{
    if file_names.len() == 0 {
        Seq::<Seq<char>>::empty()
    } else {
        let front = extension_list_lines(modules, file_names.drop_last());
        match extension_of_file(file_names.last()) {
            Some(e) => front.push(extension_status_line(e, modules.contains(e))),
            None => front,
        }
    }
}

fn contains_name(names: &Vec<String>, e: &str) -> (res: bool)
    ensures
        res == names.deep_view().contains(e@),
{
    let n = names.len();
    let ghost nv = names.deep_view();
    for i in 0..n
        invariant
            n == names@.len(),
            nv == names.deep_view(),
            forall|j: int| 0 <= j < i ==> nv[j] != e@,
    {
        let a = chars_of(names[i].as_str());
        let b = chars_of(e);
        assert(nv[i as int] == names@[i as int]@);
        if chars_eq(a.as_slice(), b.as_slice()) {
            return true;
        }
    }
    false
}

/// The lines that `ext list` prints, as [`extension_list_lines`] says, for the output
/// `modules_output` of `php -m` and the file names of the extension directory.
pub fn list_extension_lines(modules_output: &str, file_names: &Vec<String>) -> (res: Vec<String>)
    ensures
        res.deep_view() == extension_list_lines(loaded_module_names(modules_output@), file_names.deep_view()),
{
    let loaded = loaded_modules(modules_output);
    let ghost fv = file_names.deep_view();
    let mut res: Vec<String> = Vec::new();
    let n = file_names.len();
    assert(fv.take(0) =~= Seq::<Seq<char>>::empty());
    for i in 0..n
        invariant
            n == file_names@.len(),
            fv == file_names.deep_view(),
            loaded.deep_view() == loaded_module_names(modules_output@),
            res.deep_view() == extension_list_lines(loaded.deep_view(), fv.take(i as int)),
    {
        assert(fv.take(i + 1).drop_last() =~= fv.take(i as int));
        assert(fv.take(i + 1).last() == file_names@[i as int]@);
        match extension_from_file_name(file_names[i].as_str()) {
            Some(e) => {
                let is_loaded = contains_name(&loaded, e.as_str());
                let mut line = pad_right_string(e.as_str(), 20);
                line.append(" ");
                line.append(if is_loaded { "loaded" } else { "disabled" });
                let ghost before = res.deep_view();
                res.push(line);
                assert(res.deep_view() =~= before.push(extension_status_line(e@, is_loaded)));
            },
            None => {},
        }
    }
    assert(fv.take(n as int) =~= fv);
    res
}

} // verus!
