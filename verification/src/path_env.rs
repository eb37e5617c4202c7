//! Rewriting a Windows `PATH` value so that it points at the manager's directories.

use vstd::prelude::*;

use crate::text::{
    chars_of, join, join_chars, lacks, lemma_split_join, lemma_split_pieces_lack_sep, split_chars,
    split_on, string_of, views,
};

verus! {

/// The separator between entries of a `PATH` value.
pub open spec fn path_sep() -> Seq<char> {
    seq![';']
}

/// `c` with ASCII capitals made small.
pub open spec fn ascii_lower(c: char) -> char {
    if 0x41 <= (c as u32) <= 0x5a {
        ((c as u32) + 32) as char
    } else {
        c
    }
}

/// Whether `c` separates directory components.
pub open spec fn is_dir_sep(c: char) -> bool {
    c == '\\' || c == '/'
}

/// `e` without its trailing directory separators.
pub open spec fn strip_trailing_seps(e: Seq<char>) -> Seq<char>
    decreases e.len(),
{
    if e.len() > 0 && is_dir_sep(e.last()) {
        strip_trailing_seps(e.drop_last())
    } else {
        e
    }
}

/// The form in which two `PATH` entries are compared: trailing separators
/// dropped and ASCII letters made small, since Windows paths ignore case.
pub open spec fn dir_key(e: Seq<char>) -> Seq<char> {
    strip_trailing_seps(e).map_values(|c: char| ascii_lower(c))
}

/// Two `PATH` entries name the same directory.
pub open spec fn same_dir(a: Seq<char>, b: Seq<char>) -> bool {
    dir_key(a) == dir_key(b)
}

/// An existing entry survives the rewrite: it is not empty, not the directory
/// being removed, and not one of the two directories that get appended.
pub open spec fn keeps_entry(
    e: Seq<char>,
    remove: Option<Seq<char>>,
    dir: Seq<char>,
    php_dir: Seq<char>,
) -> bool {
    &&& e.len() > 0
    &&& !same_dir(e, dir)
    &&& !same_dir(e, php_dir)
    &&& match remove {
        Some(r) => !same_dir(e, r),
        None => true,
    }
}

/// The entries that survive, in their original order.
pub open spec fn kept_entries(
    entries: Seq<Seq<char>>,
    remove: Option<Seq<char>>,
    dir: Seq<char>,
    php_dir: Seq<char>,
) -> Seq<Seq<char>>
    decreases entries.len(),
{
    if entries.len() == 0 {
        Seq::<Seq<char>>::empty()
    } else {
        let front = kept_entries(entries.drop_last(), remove, dir, php_dir);
        if keeps_entry(entries.last(), remove, dir, php_dir) {
            front.push(entries.last())
        } else {
            front
        }
    }
}

/// The entries of the rewritten `PATH`: the surviving ones, then `dir`, then `php_dir`.
pub open spec fn updated_entries(
    path: Seq<char>,
    remove: Option<Seq<char>>,
    dir: Seq<char>,
    php_dir: Seq<char>,
) -> Seq<Seq<char>> {
    kept_entries(split_on(path, ';'), remove, dir, php_dir).push(dir).push(php_dir)
}

/// A directory can stand as one `PATH` entry: it holds no `;` and no `"`.
pub open spec fn fits_in_path(d: Seq<char>) -> bool {
    forall|i: int| 0 <= i < d.len() ==> d[i] != ';' && d[i] != '"'
}

/// Why a `PATH` value could not be rebuilt.
#[derive(Debug, Clone, Copy, PartialEq, Eq, Structural)]
pub enum PathUpdateError {
    /// One of the manager's directories holds a `;` or a `"`.
    UnrepresentableDirectory,
}

fn ascii_lower_exec(c: char) -> (res: char)
    ensures
        res == ascii_lower(c),
{
    if c >= 'A' && c <= 'Z' {
        ((c as u8) + 32) as char
    } else {
        c
    }
}

fn dir_key_exec(e: &[char]) -> (res: Vec<char>)
    ensures
        res@ == dir_key(e@),
{
    let mut n = e.len();
    assert(e@.subrange(0, n as int) =~= e@);
    while n > 0 && (e[n - 1] == '\\' || e[n - 1] == '/')
        invariant
            n <= e@.len(),
            strip_trailing_seps(e@) == strip_trailing_seps(e@.subrange(0, n as int)),
        decreases n,
    {
        assert(e@.subrange(0, n - 1) =~= e@.subrange(0, n as int).drop_last());
        n = n - 1;
    }
    let ghost stripped = e@.subrange(0, n as int);
    assert(strip_trailing_seps(stripped) == stripped);
    let mut res: Vec<char> = Vec::new();
    for i in 0..n
        invariant
            n <= e@.len(),
            stripped == e@.subrange(0, n as int),
            res@ == stripped.take(i as int).map_values(|c: char| ascii_lower(c)),
    {
        let low = ascii_lower_exec(e[i]);
        res.push(low);
        assert(stripped.take(i + 1).map_values(|c: char| ascii_lower(c)) =~= stripped.take(
            i as int,
        ).map_values(|c: char| ascii_lower(c)).push(ascii_lower(e@[i as int])));
    }
    assert(stripped.take(n as int) =~= stripped);
    res
}

fn same_dir_exec(a: &[char], b: &[char]) -> (res: bool)
    ensures
        res == same_dir(a@, b@),
{
    let ka = dir_key_exec(a);
    let kb = dir_key_exec(b);
    crate::text::chars_eq(ka.as_slice(), kb.as_slice())
}

fn fits_in_path_exec(d: &[char]) -> (res: bool)
    ensures
        res == fits_in_path(d@),
{
    let n = d.len();
    for i in 0..n
        invariant
            n == d@.len(),
            forall|j: int| 0 <= j < i ==> d@[j] != ';' && d@[j] != '"',
    {
        if d[i] == ';' || d[i] == '"' {
            return false;
        }
    }
    true
}

/// Rewrites a `PATH` value: drops empty entries, the entry `remove_dir` (an earlier
/// PHP installation) and any earlier copies of `pvm_dir` and `pvm_php_dir`, keeps
/// the other entries in order, and appends `pvm_dir` and `pvm_php_dir`.
/// Entries are compared without regard to ASCII case or trailing separators.
pub fn clean_and_update_path_string(
    current_path: &str,
    remove_dir: Option<&str>,
    pvm_dir: &str,
    pvm_php_dir: &str,
) -> (res: Result<String, PathUpdateError>)
    ensures
        fits_in_path(pvm_dir@) && fits_in_path(pvm_php_dir@) <==> res is Ok,
        res matches Ok(s) ==> s@ == join(
            updated_entries(
                current_path@,
                match remove_dir {
                    Some(r) => Some(r@),
                    None => None,
                },
                pvm_dir@,
                pvm_php_dir@,
            ),
            path_sep(),
        ),
        res matches Ok(s) ==> s@ == join(
            split_on(current_path@, ';').filter(
                (|e: Seq<char>|
                    e.len() > 0 && !same_dir(e, pvm_dir@) && !same_dir(e, pvm_php_dir@) && (match remove_dir {
                        Some(r) => !same_dir(e, r@),
                        None => true,
                    })),
            ).push(pvm_dir@).push(pvm_php_dir@),
            path_sep(),
        ),
{
    let dir = chars_of(pvm_dir);
    let php_dir = chars_of(pvm_php_dir);
    if !fits_in_path_exec(dir.as_slice()) || !fits_in_path_exec(php_dir.as_slice()) {
        return Err(PathUpdateError::UnrepresentableDirectory);
    }
    let remove: Option<Vec<char>> = match remove_dir {
        Some(r) => Some(chars_of(r)),
        None => None,
    };
    let ghost remove_view: Option<Seq<char>> = match remove_dir {
        Some(r) => Some(r@),
        None => None,
    };
    let cur = chars_of(current_path);
    let entries = split_chars(cur.as_slice(), ';');
    let ghost ev = views(entries@);
    let mut kept: Vec<Vec<char>> = Vec::new();
    let n = entries.len();
    assert(ev.take(0) =~= Seq::<Seq<char>>::empty());
    for i in 0..n
        invariant
            n == entries@.len(),
            ev == views(entries@),
            match remove {
                Some(r) => remove_view == Some(r@),
                None => remove_view is None,
            },
            views(kept@) == kept_entries(ev.take(i as int), remove_view, dir@, php_dir@),
    {
        let e = entries[i].as_slice();
        let mut keep = e.len() > 0 && !same_dir_exec(e, dir.as_slice()) && !same_dir_exec(
            e,
            php_dir.as_slice(),
        );
        match &remove {
            Some(r) => {
                if keep && same_dir_exec(e, r.as_slice()) {
                    keep = false;
                }
            },
            None => {},
        }
        assert(ev.take(i + 1).drop_last() =~= ev.take(i as int));
        assert(ev.take(i + 1).last() == e@);
        assert(keep == keeps_entry(e@, remove_view, dir@, php_dir@));
        if keep {
            let copy = crate::text::sub_chars(e, 0, e.len());
            assert(e@.subrange(0, e@.len() as int) =~= e@);
            let ghost before = views(kept@);
            kept.push(copy);
            assert(views(kept@) =~= before.push(e@));
        }
    }
    assert(ev.take(n as int) =~= ev);
    let ghost before = views(kept@);
    kept.push(dir);
    kept.push(php_dir);
    assert(views(kept@) =~= before.push(pvm_dir@).push(pvm_php_dir@));
    let sep: [char; 1] = [';'];
    let joined = join_chars(&kept, sep.as_slice());
    assert(sep@ =~= path_sep());
    proof {
        lemma_update_path_keeps_other_entries(current_path@, remove_view, pvm_dir@, pvm_php_dir@);
        let p1 = |e: Seq<char>|
            e.len() > 0 && !same_dir(e, pvm_dir@) && !same_dir(e, pvm_php_dir@) && (match remove_view {
                Some(r) => !same_dir(e, r),
                None => true,
            });
        let p2 = |e: Seq<char>|
            e.len() > 0 && !same_dir(e, pvm_dir@) && !same_dir(e, pvm_php_dir@) && (match remove_dir {
                Some(r) => !same_dir(e, r@),
                None => true,
            });
        assert(p1 =~= p2);
    }
    Ok(string_of(joined.as_slice()))
}

/// Every surviving entry is one of the original entries and passes the test.
pub proof fn lemma_kept_entries_members(
    entries: Seq<Seq<char>>,
    remove: Option<Seq<char>>,
    dir: Seq<char>,
    php_dir: Seq<char>,
)
    ensures
        forall|i: int|
            0 <= i < kept_entries(entries, remove, dir, php_dir).len() ==> {
                &&& keeps_entry(
                    #[trigger] kept_entries(entries, remove, dir, php_dir)[i],
                    remove,
                    dir,
                    php_dir,
                )
                &&& entries.contains(kept_entries(entries, remove, dir, php_dir)[i])
            },
    decreases entries.len(),
{
    if entries.len() > 0 {
        lemma_kept_entries_members(entries.drop_last(), remove, dir, php_dir);
        let front = kept_entries(entries.drop_last(), remove, dir, php_dir);
        let all = kept_entries(entries, remove, dir, php_dir);
        assert forall|i: int| 0 <= i < all.len() implies {
            &&& keeps_entry(#[trigger] all[i], remove, dir, php_dir)
            &&& entries.contains(all[i])
        } by {
            if i < front.len() {
                assert(all[i] == front[i]);
                let k = choose|k: int| 0 <= k < entries.drop_last().len() && entries.drop_last()[k] == front[i];
                assert(entries[k] == front[i]);
            } else {
                assert(entries[entries.len() - 1] == all[i]);
            }
        }
    }
}

/// A list whose entries all pass the test survives unchanged.
proof fn lemma_kept_entries_all(
    entries: Seq<Seq<char>>,
    remove: Option<Seq<char>>,
    dir: Seq<char>,
    php_dir: Seq<char>,
)
    requires
        forall|i: int| 0 <= i < entries.len() ==> keeps_entry(#[trigger] entries[i], remove, dir, php_dir),
    ensures
        kept_entries(entries, remove, dir, php_dir) == entries,
    decreases entries.len(),
{
    if entries.len() > 0 {
        let front = entries.drop_last();
        assert forall|i: int| 0 <= i < front.len() implies keeps_entry(#[trigger] front[i], remove, dir, php_dir) by {
            assert(front[i] == entries[i]);
        }
        lemma_kept_entries_all(front, remove, dir, php_dir);
        assert(keeps_entry(entries[entries.len() - 1], remove, dir, php_dir));
        assert(front.push(entries.last()) =~= entries);
    }
}

/// Rewriting a `PATH` value a second time, with nothing more to remove, changes
/// nothing: the manager's directories are not added twice.
pub proof fn lemma_update_path_idempotent(
    path: Seq<char>,
    remove: Option<Seq<char>>,
    dir: Seq<char>,
    php_dir: Seq<char>,
)
    requires
        fits_in_path(dir),
        fits_in_path(php_dir),
    ensures
        join(updated_entries(join(updated_entries(path, remove, dir, php_dir), path_sep()), None, dir, php_dir), path_sep())
            == join(updated_entries(path, remove, dir, php_dir), path_sep()),
{
    let pieces = split_on(path, ';');
    let kept = kept_entries(pieces, remove, dir, php_dir);
    let all = updated_entries(path, remove, dir, php_dir);
    lemma_kept_entries_members(pieces, remove, dir, php_dir);
    lemma_split_pieces_lack_sep(path, ';');
    assert forall|i: int| 0 <= i < all.len() implies lacks(#[trigger] all[i], ';') by {
        if i < kept.len() {
            assert(all[i] == kept[i]);
            let k = choose|k: int| 0 <= k < pieces.len() && pieces[k] == kept[i];
            assert(lacks(pieces[k], ';'));
        } else if i == kept.len() {
            assert(all[i] == dir);
        } else {
            assert(all[i] == php_dir);
        }
    }
    assert(path_sep() == seq![';']);
    lemma_split_join(all, ';');
    assert forall|i: int| 0 <= i < kept.len() implies keeps_entry(#[trigger] kept[i], None, dir, php_dir) by {
        assert(keeps_entry(kept[i], remove, dir, php_dir));
    }
    lemma_kept_entries_all(kept, None, dir, php_dir);
    assert(all.drop_last().drop_last() =~= kept);
    assert(!keeps_entry(dir, None, dir, php_dir));
    assert(!keeps_entry(php_dir, None, dir, php_dir));
    assert(kept_entries(all, None, dir, php_dir) == kept_entries(all.drop_last(), None, dir, php_dir));
    assert(all.drop_last().last() == dir);
    assert(kept_entries(all.drop_last(), None, dir, php_dir) == kept);
}

/// After the rewrite no entry but the two appended ones names the removed directory,
/// and the manager's directories are the last two entries.
pub proof fn lemma_update_path_removes(
    path: Seq<char>,
    remove: Seq<char>,
    dir: Seq<char>,
    php_dir: Seq<char>,
)
    ensures
        ({
            let all = updated_entries(path, Some(remove), dir, php_dir);
            &&& all.len() >= 2
            &&& all[all.len() - 2] == dir
            &&& all[all.len() - 1] == php_dir
            &&& forall|i: int| 0 <= i < all.len() - 2 ==> !same_dir(#[trigger] all[i], remove)
        }),
{
    let kept = kept_entries(split_on(path, ';'), Some(remove), dir, php_dir);
    lemma_kept_entries_members(split_on(path, ';'), Some(remove), dir, php_dir);
    let all = updated_entries(path, Some(remove), dir, php_dir);
    assert forall|i: int| 0 <= i < all.len() - 2 implies !same_dir(#[trigger] all[i], remove) by {
        assert(all[i] == kept[i]);
        assert(keeps_entry(kept[i], Some(remove), dir, php_dir));
    }
}

/// `kept_entries` is the filter of `entries` by any test that agrees with [`keeps_entry`].
proof fn lemma_kept_entries_filter(
    entries: Seq<Seq<char>>,
    remove: Option<Seq<char>>,
    dir: Seq<char>,
    php_dir: Seq<char>,
    pred: spec_fn(Seq<char>) -> bool,
)
    requires
        forall|e: Seq<char>| #[trigger] pred(e) == keeps_entry(e, remove, dir, php_dir),
    ensures
        kept_entries(entries, remove, dir, php_dir) == entries.filter(pred),
    decreases entries.len(),
{
    reveal(Seq::filter);
    if entries.len() > 0 {
        lemma_kept_entries_filter(entries.drop_last(), remove, dir, php_dir, pred);
        assert(pred(entries.last()) == keeps_entry(entries.last(), remove, dir, php_dir));
    }
}

/// The rewritten `PATH` holds exactly the entries of `path` that are not empty and name
/// neither the removed directory nor either of the manager's directories, in their
/// original order, followed by `dir` and `php_dir`. So every other entry stays: one is
/// dropped only when it names one of those directories itself, never because its text
/// merely begins with one of them.
pub proof fn lemma_update_path_keeps_other_entries(
    path: Seq<char>,
    remove: Option<Seq<char>>,
    dir: Seq<char>,
    php_dir: Seq<char>,
)
    ensures
        updated_entries(path, remove, dir, php_dir) == split_on(path, ';').filter(
            (|e: Seq<char>|
                e.len() > 0 && !same_dir(e, dir) && !same_dir(e, php_dir) && (match remove {
                    Some(r) => !same_dir(e, r),
                    None => true,
                })),
        ).push(dir).push(php_dir),
        forall|i: int|
            #![trigger split_on(path, ';')[i]]
            0 <= i < split_on(path, ';').len() && split_on(path, ';')[i].len() > 0
                && !same_dir(split_on(path, ';')[i], dir) && !same_dir(split_on(path, ';')[i], php_dir)
                && (match remove {
                    Some(r) => !same_dir(split_on(path, ';')[i], r),
                    None => true,
                }) ==> updated_entries(path, remove, dir, php_dir).contains(split_on(path, ';')[i]),
{
    let pieces = split_on(path, ';');
    let pred = |e: Seq<char>|
        e.len() > 0 && !same_dir(e, dir) && !same_dir(e, php_dir) && (match remove {
            Some(r) => !same_dir(e, r),
            None => true,
        });
    lemma_kept_entries_filter(pieces, remove, dir, php_dir, pred);
    pieces.filter_lemma(pred);
    let all = updated_entries(path, remove, dir, php_dir);
    let kept = pieces.filter(pred);
    assert forall|i: int|
        #![trigger pieces[i]]
        0 <= i < pieces.len() && pred(pieces[i]) implies all.contains(pieces[i]) by {
        assert(kept.contains(pieces[i]));
        let k = choose|k: int| 0 <= k < kept.len() && kept[k] == pieces[i];
        assert(all[k] == kept[k]);
    }
}

/// Two entries whose texts differ in length once trailing separators are dropped name
/// different directories: an entry that extends another (`C:\php-tools` beside `C:\php`)
/// is never taken for it.
pub proof fn lemma_same_dir_needs_equal_length(a: Seq<char>, b: Seq<char>)
    requires
        strip_trailing_seps(a).len() != strip_trailing_seps(b).len(),
    ensures
        !same_dir(a, b),
{
    assert(dir_key(a).len() == strip_trailing_seps(a).len());
    assert(dir_key(b).len() == strip_trailing_seps(b).len());
}

/// The UTF-16 code units of `c`: one unit below `U+10000`, else a surrogate pair.
pub open spec fn utf16_units(c: char) -> Seq<u16> {
    let v = c as u32;
    if v < 0x10000 {
        seq![v as u16]
    } else {
        let w = (v - 0x10000) as int;
        seq![(0xD800 + w / 0x400) as u16, (0xDC00 + w % 0x400) as u16]
    }
}

/// The bytes of `units`, each unit little-endian (what `u16::to_le_bytes` gives).
pub open spec fn le_bytes(units: Seq<u16>) -> Seq<u8>
    decreases units.len(),
{
    if units.len() == 0 {
        Seq::<u8>::empty()
    } else {
        le_bytes(units.drop_last()) + seq![
            (units.last() % 256) as u8,
            (units.last() / 256) as u8,
        ]
    }
}

/// The UTF-16 encoding of `s`, little-endian (what `encode_utf16` with `to_le_bytes` gives).
pub open spec fn utf16le(s: Seq<char>) -> Seq<u8>
    decreases s.len(),
{
    if s.len() == 0 {
        Seq::<u8>::empty()
    } else {
        utf16le(s.drop_last()) + le_bytes(utf16_units(s.last()))
    }
}

/// The bytes of a string value in the Windows registry: UTF-16, little-endian, ended by a
/// zero unit.
pub open spec fn registry_string(s: Seq<char>) -> Seq<u8> {
    utf16le(s) + seq![0u8, 0u8]
}

/// The bytes that store `s` as a registry string value, as [`registry_string`] says.
pub fn registry_string_bytes(s: &str) -> (res: Vec<u8>)
    ensures
        res@ == registry_string(s@),
{
    let v = chars_of(s);
    let mut res: Vec<u8> = Vec::new();
    let n = v.len();
    assert(v@.take(0) =~= Seq::<char>::empty());
    for i in 0..n
        invariant
            n == v@.len(),
            v@ == s@,
            res@ == utf16le(v@.take(i as int)),
    {
        let c = v[i];
        let u = c as u32;
        let ghost before = res@;
        if u < 0x10000 {
            let unit = u as u16;
            res.push((unit % 256) as u8);
            res.push((unit / 256) as u8);
            assert(le_bytes(seq![unit]) =~= seq![(unit % 256) as u8, (unit / 256) as u8]) by {
                assert(seq![unit].drop_last() =~= Seq::<u16>::empty());
                assert(le_bytes(seq![unit].drop_last()) == Seq::<u8>::empty());
            }
            assert(utf16_units(c) == seq![unit]);
        } else {
            let w = u - 0x10000;
            let high = (0xD800 + w / 0x400) as u16;
            let low = (0xDC00 + w % 0x400) as u16;
            res.push((high % 256) as u8);
            res.push((high / 256) as u8);
            res.push((low % 256) as u8);
            res.push((low / 256) as u8);
            assert(le_bytes(seq![high, low]) =~= seq![
                (high % 256) as u8,
                (high / 256) as u8,
                (low % 256) as u8,
                (low / 256) as u8,
            ]) by {
                assert(seq![high, low].drop_last() =~= seq![high]);
                assert(seq![high].drop_last() =~= Seq::<u16>::empty());
                assert(le_bytes(seq![high].drop_last()) == Seq::<u8>::empty());
                assert(le_bytes(seq![high]) =~= seq![(high % 256) as u8, (high / 256) as u8]);
            }
            assert(utf16_units(c) == seq![high, low]);
        }
        assert(v@.take(i + 1).drop_last() =~= v@.take(i as int));
        assert(res@ =~= before + le_bytes(utf16_units(c)));
    }
    assert(v@.take(n as int) =~= v@);
    res.push(0);
    res.push(0);
    res
}

/// What `setup` knows of one entry of the `PATH`: whether it holds `php.exe`, whether it
/// lies inside the manager's base directory, and the version that `php -v` reported
/// there (`None` when it was not asked or gave no version).
pub struct PathEntryFacts {
    pub has_php_exe: bool,
    pub inside_base: bool,
    pub reported_version: Option<String>,
}

/// Whether `setup` asks the interpreter of a `PATH` entry for its version: when the entry
/// holds `php.exe` and does not lie inside the manager's base directory.
pub open spec fn probes_entry(has_php_exe: bool, inside_base: bool) -> bool {
    has_php_exe && !inside_base
}

/// The existing installation that `setup` imports: the first `PATH` entry that it probes
/// and whose interpreter reported a version.
pub open spec fn detected_entry(entries: Seq<(bool, bool, Option<Seq<char>>)>) -> Option<int>
    decreases entries.len(),
{
    if entries.len() == 0 {
        None
    } else {
        match detected_entry(entries.drop_last()) {
            Some(i) => Some(i),
            None => {
                let e = entries.last();
                if probes_entry(e.0, e.1) && e.2 is Some {
                    Some(entries.len() - 1)
                } else {
                    None
                }
            },
        }
    }
}

/// The abstract form of the facts of the `PATH` entries.
pub open spec fn entry_facts(v: Seq<PathEntryFacts>) -> Seq<(bool, bool, Option<Seq<char>>)> {
    v.map_values(|e: PathEntryFacts| (e.has_php_exe, e.inside_base, e.reported_version.deep_view()))
}

/// Whether `setup` asks the interpreter of a `PATH` entry for its version, as
/// [`probes_entry`] says.
pub fn needs_version_probe(has_php_exe: bool, inside_base: bool) -> (res: bool)
    ensures
        res == probes_entry(has_php_exe, inside_base),
{
    has_php_exe && !inside_base
}

/// The position of the `PATH` entry whose installation `setup` imports, as
/// [`detected_entry`] says.
pub fn choose_existing_php(entries: &Vec<PathEntryFacts>) -> (res: Option<usize>)
    ensures
        match res {
            Some(k) => detected_entry(entry_facts(entries@)) == Some(k as int) && k < entries@.len(),
            None => detected_entry(entry_facts(entries@)) is None,
        },
{
    let ghost ev = entry_facts(entries@);
    let n = entries.len();
    assert(ev.take(0) =~= Seq::<(bool, bool, Option<Seq<char>>)>::empty());
    for i in 0..n
        invariant
            n == entries@.len(),
            ev == entry_facts(entries@),
            detected_entry(ev.take(i as int)) is None,
    {
        let e = &entries[i];
        assert(ev.take(i + 1).drop_last() =~= ev.take(i as int));
        assert(ev.take(i + 1).last() == ev[i as int]);
        if needs_version_probe(e.has_php_exe, e.inside_base) && e.reported_version.is_some() {
            proof {
                lemma_detected_prefix(ev, i as int);
            }
            return Some(i);
        }
    }
    assert(ev.take(n as int) =~= ev);
    None
}

proof fn lemma_detected_prefix(entries: Seq<(bool, bool, Option<Seq<char>>)>, i: int)
    requires
        0 <= i < entries.len(),
        detected_entry(entries.take(i)) is None,
        probes_entry(entries[i].0, entries[i].1) && entries[i].2 is Some,
    ensures
        detected_entry(entries) == Some(i),
    decreases entries.len(),
{
    assert(entries.take(i + 1).drop_last() =~= entries.take(i));
    if i + 1 < entries.len() {
        assert(entries.drop_last().take(i) =~= entries.take(i));
        lemma_detected_prefix(entries.drop_last(), i);
    } else {
        assert(entries.take(i + 1) =~= entries);
    }
}

} // verus!
