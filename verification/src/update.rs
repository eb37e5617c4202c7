//! Release versions and the self-update decisions.

use vstd::prelude::*;

use crate::ini::{first_where, lemma_first_where_prefix};
use crate::numbers::{parse_u32, parse_u32_chars, parse_u64, parse_u64_chars};
use crate::text::{
    chars_of, contains, ends_with, has_substring, has_suffix, split_chars, split_on, sub_chars, views,
};

verus! {

/// `s` without all of its leading `v` characters (what `trim_start_matches('v')` returns).
pub open spec fn trim_leading_v(s: Seq<char>) -> Seq<char>
    decreases s.len(),
{
    if s.len() > 0 && s[0] == 'v' {
        trim_leading_v(s.drop_first())
    } else {
        s
    }
}

/// The pieces that parse as `u32`, in order; the others are left out.
pub open spec fn numeric_parts(parts: Seq<Seq<char>>) -> Seq<u32>
    decreases parts.len(),
{
    if parts.len() == 0 {
        Seq::<u32>::empty()
    } else {
        let front = numeric_parts(parts.drop_last());
        match parse_u32(parts.last()) {
            Some(n) => front.push(n),
            None => front,
        }
    }
}

/// The numeric components of a version string such as `v1.2.3`: leading `v`s
/// are dropped, the rest is split at `.`, and each piece that is a `u32` is kept.
pub open spec fn version_numbers(s: Seq<char>) -> Seq<u32> {
    numeric_parts(split_on(trim_leading_v(s), '.'))
}

/// Component `i` of a version, where missing components count as 0.
pub open spec fn component(p: Seq<u32>, i: int) -> u32 {
    if 0 <= i < p.len() {
        p[i]
    } else {
        0
    }
}

/// `l` is greater than `c` at component `i`, and equal to it at every earlier component.
pub open spec fn first_greater_at(c: Seq<u32>, l: Seq<u32>, i: int) -> bool {
    &&& 0 <= i
    &&& component(l, i) > component(c, i)
    &&& forall|j: int| 0 <= j < i ==> component(l, j) == component(c, j)
}

/// `l` is later than `c`: they are compared component by component, missing
/// components counting as 0, and the first difference decides.
pub open spec fn later_numbers(c: Seq<u32>, l: Seq<u32>) -> bool {
    exists|i: int| first_greater_at(c, l, i)
}

/// The version string `latest` names a later release than `current`.
pub open spec fn is_newer(current: Seq<char>, latest: Seq<char>) -> bool {
    later_numbers(version_numbers(current), version_numbers(latest))
}

/// The index of the first character of `v` that is not a `v`.
fn skip_leading_v(v: &[char]) -> (res: usize)
    ensures
        res <= v@.len(),
        v@.subrange(res as int, v@.len() as int) == trim_leading_v(v@),
{
    let n = v.len();
    let mut i: usize = 0;
    assert(v@.subrange(0, n as int) =~= v@);
    while i < n && v[i] == 'v'
        invariant
            i <= n,
            n == v@.len(),
            trim_leading_v(v@) == trim_leading_v(v@.subrange(i as int, n as int)),
        decreases n - i,
    {
        assert(v@.subrange(i + 1, n as int) =~= v@.subrange(i as int, n as int).drop_first());
        i = i + 1;
    }
    proof {
        res_is_trimmed(v@, i as int);
    }
    i
}

proof fn res_is_trimmed(v: Seq<char>, i: int)
    requires
        0 <= i <= v.len(),
        i == v.len() || v[i] != 'v',
    ensures
        trim_leading_v(v.subrange(i, v.len() as int)) == v.subrange(i, v.len() as int),
{
}

/// The numeric components of the version string `s`.
pub fn version_numbers_of(s: &str) -> (res: Vec<u32>)
    ensures
        res@ == version_numbers(s@),
{
    let v = chars_of(s);
    let start = skip_leading_v(v.as_slice());
    let rest = sub_chars(v.as_slice(), start, v.len());
    let pieces = split_chars(rest.as_slice(), '.');
    let mut res: Vec<u32> = Vec::new();
    let n = pieces.len();
    assert(views(pieces@).take(0) =~= Seq::<Seq<char>>::empty());
    for i in 0..n
        invariant
            n == pieces@.len(),
            res@ == numeric_parts(views(pieces@).take(i as int)),
    {
        assert(views(pieces@).take(i + 1).drop_last() =~= views(pieces@).take(i as int));
        assert(views(pieces@).take(i + 1).last() == pieces@[i as int]@);
        match parse_u32_chars(pieces[i].as_slice()) {
            Some(x) => {
                res.push(x);
            },
            None => {},
        }
    }
    assert(views(pieces@).take(n as int) =~= views(pieces@));
    res
}

/// Component `i` of `p`, or 0 past its end.
fn component_exec(p: &Vec<u32>, i: usize) -> (res: u32)
    ensures
        res == component(p@, i as int),
{
    if i < p.len() {
        p[i]
    } else {
        0
    }
}

/// Whether `latest` names a later release than `current`, comparing their numeric
/// components in order (a leading `v` is ignored, missing components count as 0).
pub fn is_newer_version(current: &str, latest: &str) -> (res: bool)
    ensures
        res == is_newer(current@, latest@),
{
    let c = version_numbers_of(current);
    let l = version_numbers_of(latest);
    let n = if c.len() > l.len() { c.len() } else { l.len() };
    for i in 0..n
        invariant
            n >= c@.len(),
            n >= l@.len(),
            c@ == version_numbers(current@),
            l@ == version_numbers(latest@),
            forall|j: int| 0 <= j < i ==> component(l@, j) == component(c@, j),
    {
        let cur = component_exec(&c, i);
        let lat = component_exec(&l, i);
        if lat > cur {
            assert(first_greater_at(c@, l@, i as int));
            return true;
        } else if cur > lat {
            assert forall|k: int| !first_greater_at(c@, l@, k) by {
                if k > i && first_greater_at(c@, l@, k) {
                    assert(component(l@, i as int) == component(c@, i as int));
                }
            }
            return false;
        }
    }
    assert forall|k: int| !first_greater_at(c@, l@, k) by {
        if k >= n {
            assert(component(l@, k) == 0 && component(c@, k) == 0);
        }
    }
    false
}

/// Comparing component lists never finds a list later than itself.
pub proof fn lemma_later_irreflexive(a: Seq<u32>)
    ensures
        !later_numbers(a, a),
{
}

/// Two component lists cannot each be later than the other.
pub proof fn lemma_later_asymmetric(a: Seq<u32>, b: Seq<u32>)
    requires
        later_numbers(a, b),
    ensures
        !later_numbers(b, a),
{
    let i = choose|i: int| first_greater_at(a, b, i);
    if later_numbers(b, a) {
        let j = choose|j: int| first_greater_at(b, a, j);
        if i < j {
            assert(component(a, i) == component(b, i));
        } else if j < i {
            assert(component(b, j) == component(a, j));
        }
    }
}

/// Being later is transitive.
pub proof fn lemma_later_transitive(a: Seq<u32>, b: Seq<u32>, c: Seq<u32>)
    requires
        later_numbers(a, b),
        later_numbers(b, c),
    ensures
        later_numbers(a, c),
{
    let i = choose|i: int| first_greater_at(a, b, i);
    let j = choose|j: int| first_greater_at(b, c, j);
    let k = if i < j { i } else { j };
    assert forall|m: int| 0 <= m < k implies component(c, m) == component(a, m) by {
        assert(component(b, m) == component(a, m));
        assert(component(c, m) == component(b, m));
    }
    if i < j {
        assert(component(c, i) == component(b, i));
    } else if j < i {
        assert(component(b, j) == component(a, j));
    }
    assert(first_greater_at(a, c, k));
}

/// No version is newer than itself.
pub proof fn lemma_newer_irreflexive(v: Seq<char>)
    ensures
        !is_newer(v, v),
{
    lemma_later_irreflexive(version_numbers(v));
}

/// If `b` is newer than `a`, then `a` is not newer than `b`.
pub proof fn lemma_newer_asymmetric(a: Seq<char>, b: Seq<char>)
    requires
        is_newer(a, b),
    ensures
        !is_newer(b, a),
{
    lemma_later_asymmetric(version_numbers(a), version_numbers(b));
}

/// If `b` is newer than `a` and `c` newer than `b`, then `c` is newer than `a`.
pub proof fn lemma_newer_transitive(a: Seq<char>, b: Seq<char>, c: Seq<char>)
    requires
        is_newer(a, b),
        is_newer(b, c),
    ensures
        is_newer(a, c),
{
    lemma_later_transitive(version_numbers(a), version_numbers(b), version_numbers(c));
}

/// Trailing zero components change nothing: `1.0` and `1.0.0` compare alike.
pub proof fn lemma_trailing_zero_irrelevant(c: Seq<u32>, l: Seq<u32>)
    ensures
        later_numbers(c.push(0), l) == later_numbers(c, l),
        later_numbers(c, l.push(0)) == later_numbers(c, l),
{
    assert forall|i: int| #[trigger] component(c.push(0), i) == component(c, i) by {}
    assert forall|i: int| #[trigger] component(l.push(0), i) == component(l, i) by {}
    if later_numbers(c.push(0), l) {
        let i = choose|i: int| first_greater_at(c.push(0), l, i);
        assert(first_greater_at(c, l, i));
    }
    if later_numbers(c, l) {
        let i = choose|i: int| first_greater_at(c, l, i);
        assert(first_greater_at(c.push(0), l, i));
        assert(first_greater_at(c, l.push(0), i));
    }
    if later_numbers(c, l.push(0)) {
        let i = choose|i: int| first_greater_at(c, l.push(0), i);
        assert(first_greater_at(c, l, i));
    }
}

/// A release is newer than the running version exactly in this direction: when, at the
/// first component where the two differ, the release's number is the larger one, the
/// release is newer and the running version is not newer than it.
pub proof fn lemma_newer_when_first_difference_larger(current: Seq<char>, latest: Seq<char>, i: int)
    requires
        0 <= i,
        component(version_numbers(latest), i) > component(version_numbers(current), i),
        forall|j: int|
            0 <= j < i ==> component(version_numbers(latest), j) == component(version_numbers(current), j),
    ensures
        is_newer(current, latest),
        !is_newer(latest, current),
{
    assert(first_greater_at(version_numbers(current), version_numbers(latest), i));
    lemma_newer_asymmetric(current, latest);
}

/// A release whose numbers extend the running version's by one more positive component
/// (`1.2` to `1.2.1`) is newer.
pub proof fn lemma_newer_when_extended(current: Seq<char>, latest: Seq<char>, n: u32)
    requires
        n > 0,
        version_numbers(latest) == version_numbers(current).push(n),
    ensures
        is_newer(current, latest),
{
    let c = version_numbers(current);
    let l = version_numbers(latest);
    let i = c.len() as int;
    assert forall|j: int| 0 <= j < i implies component(l, j) == component(c, j) by {
        assert(l[j] == c[j]);
    }
    assert(component(l, i) == n);
    assert(first_greater_at(c, l, i));
}

/// The version of this program.
pub const PVM_VERSION: &'static str = "2.1.4";

/// Seconds between two automatic update checks (one day).
pub const UPDATE_CHECK_INTERVAL_SECS: u64 = 86400;

/// The line that the `version` command prints.
pub fn version_banner() -> (res: String)
    ensures
        res@ == "PVM version v"@ + PVM_VERSION@,
{
    let mut s = String::from_str("PVM version v");
    s.append(PVM_VERSION);
    s
}

/// What `s.parse::<u64>().ok()` gives: the time of the last update check, in
/// seconds since the Unix epoch, as it was stored.
pub fn parse_timestamp(s: &str) -> (res: Option<u64>)
    ensures
        res == parse_u64(s@),
{
    let v = chars_of(s);
    parse_u64_chars(v.as_slice())
}

/// Whether an automatic update check is due at `now_secs`: when no earlier check is
/// known, or a day or more has passed since the last one.
pub fn update_check_due(now_secs: u64, last_check: Option<u64>) -> (res: bool)
    requires
        last_check matches Some(l) ==> l + UPDATE_CHECK_INTERVAL_SECS <= u64::MAX,
    ensures
        res == match last_check {
            Some(l) => now_secs >= l + UPDATE_CHECK_INTERVAL_SECS,
            None => true,
        },
{
    match last_check {
        Some(l) => now_secs >= l + UPDATE_CHECK_INTERVAL_SECS,
        None => true,
    }
}

/// One downloadable file of a published release.
#[derive(Debug)]
pub struct ReleaseAsset {
    /// The file name, when the release data gives one as a string.
    pub name: Option<String>,
    /// Where the file is downloaded from, when given as a string.
    pub browser_download_url: Option<String>,
}

/// What the update logic reads of the latest published release.
#[derive(Debug)]
pub struct ReleaseInfo {
    /// The release tag, such as `v2.2.0`, when given as a string.
    pub tag_name: Option<String>,
    /// The release files, when given as a list.
    pub assets: Option<Vec<ReleaseAsset>>,
}

/// The abstract form of a release file: its name and its download address.
pub type AssetView = (Option<Seq<char>>, Option<Seq<char>>);

/// The abstract form of a release: its tag and its files.
pub type ReleaseView = (Option<Seq<char>>, Option<Seq<AssetView>>);

impl View for ReleaseAsset {
    type V = AssetView;

    open spec fn view(&self) -> AssetView {
        (self.name.deep_view(), self.browser_download_url.deep_view())
    }
}

impl View for ReleaseInfo {
    type V = ReleaseView;

    open spec fn view(&self) -> ReleaseView {
        (
            self.tag_name.deep_view(),
            match self.assets {
                Some(a) => Some(a@.map_values(|x: ReleaseAsset| x@)),
                None => None,
            },
        )
    }
}

/// A release file is the Windows x64 build of the program.
pub open spec fn is_windows_x64_asset(name: Seq<char>) -> bool {
    has_substring(name, "windows-x64.zip"@) || has_substring(name, "win-x64.zip"@)
}

/// The download address of the first file that is the Windows x64 build and has an address.
pub open spec fn first_windows_download(assets: Seq<AssetView>) -> Option<Seq<char>>
    decreases assets.len(),
{
    if assets.len() == 0 {
        None
    } else {
        let a = assets[0];
        match (a.0, a.1) {
            (Some(n), Some(u)) => if is_windows_x64_asset(n) {
                Some(u)
            } else {
                first_windows_download(assets.drop_first())
            },
            _ => first_windows_download(assets.drop_first()),
        }
    }
}

/// Why the latest release could not be read.
#[derive(Debug)]
pub enum UpdateError {
    /// The release data is not JSON.
    Json(serde_json::Error),
    /// The release data names no tag.
    MissingTagName,
    /// The release is newer but lists no files.
    MissingAssets,
}

/// `serde_json`'s parse error, carried in [`UpdateError::Json`].
#[verifier::external_type_specification]
#[verifier::external_body]
pub struct ExJsonError(serde_json::Error);

/// The outcome of comparing the running version with the latest release.
#[derive(Debug)]
pub enum UpdateOutcome {
    /// No newer release, or a newer one without a Windows x64 download.
    UpToDate,
    /// A newer release: its tag and the address of its Windows x64 download.
    Available(String, String),
}

/// What the update check decides, for the running version `current` and the release `r`:
/// `Err(MissingTagName)` without a tag; up to date when the tag is not newer; when it is
/// newer, `Err(MissingAssets)` without a file list, else the first Windows x64 file with an
/// address, or up to date when there is none.
pub open spec fn update_decision(current: Seq<char>, r: ReleaseView) -> Result<Option<(Seq<char>, Seq<char>)>, UpdateFailure> {
    match r.0 {
        None => Err(UpdateFailure::MissingTagName),
        Some(tag) => if !is_newer(current, tag) {
            Ok(None)
        } else {
            match r.1 {
                None => Err(UpdateFailure::MissingAssets),
                Some(assets) => match first_windows_download(assets) {
                    Some(u) => Ok(Some((tag, u))),
                    None => Ok(None),
                },
            }
        },
    }
}

/// The kinds of [`UpdateError`].
pub enum UpdateFailure {
    NotJson,
    MissingTagName,
    MissingAssets,
}

/// The download that [`first_windows_download`] finds is the address of one of the files,
/// one whose name marks the Windows x64 build.
proof fn lemma_windows_download_found(assets: Seq<AssetView>)
    ensures
        first_windows_download(assets) matches Some(u) ==> exists|k: int|
            #![trigger assets[k]]
            0 <= k < assets.len() && assets[k].1 == Some(u) && (assets[k].0 matches Some(n) && (has_substring(
                n,
                "windows-x64.zip"@,
            ) || has_substring(n, "win-x64.zip"@))),
    decreases assets.len(),
{
    if assets.len() > 0 {
        let rest = assets.drop_first();
        lemma_windows_download_found(rest);
        if let Some(u) = first_windows_download(assets) {
            let a = assets[0];
            if a.0 is Some && a.1 is Some && is_windows_x64_asset(a.0->Some_0) {
                assert(assets[0].1 == Some(u));
            } else {
                let k = choose|k: int|
                    #![trigger rest[k]]
                    0 <= k < rest.len() && rest[k].1 == Some(u) && (rest[k].0 matches Some(n) && (
                    has_substring(n, "windows-x64.zip"@) || has_substring(n, "win-x64.zip"@)));
                assert(assets[k + 1] == rest[k]);
            }
        }
    }
}

/// An update is offered only for a release whose tag is newer than the running version,
/// and the download offered is the address of one of the release's files whose name
/// contains `windows-x64.zip` or `win-x64.zip`. A release whose tag is not newer is
/// never offered, and nothing fails for it.
pub proof fn lemma_update_offered_only_when_newer(current: Seq<char>, r: ReleaseView)
    ensures
        update_decision(current, r) matches Ok(Some(offer)) ==> r.0 == Some(offer.0) && is_newer(
            current,
            offer.0,
        ) && r.1 is Some && exists|k: int|
            #![trigger r.1->Some_0[k]]
            0 <= k < r.1->Some_0.len() && r.1->Some_0[k].1 == Some(offer.1) && (r.1->Some_0[k].0 matches Some(
                n,
            ) && (has_substring(n, "windows-x64.zip"@) || has_substring(n, "win-x64.zip"@))),
        r.0 matches Some(tag) && !is_newer(current, tag) ==> update_decision(current, r) == Ok::<
            Option<(Seq<char>, Seq<char>)>,
            UpdateFailure,
        >(None),
{
    if let Some(assets) = r.1 {
        lemma_windows_download_found(assets);
    }
}

/// The abstract form of an update result.
pub open spec fn outcome_view(res: Result<UpdateOutcome, UpdateError>) -> Result<Option<(Seq<char>, Seq<char>)>, UpdateFailure> {
    match res {
        Ok(UpdateOutcome::UpToDate) => Ok(None),
        Ok(UpdateOutcome::Available(t, u)) => Ok(Some((t@, u@))),
        Err(UpdateError::MissingTagName) => Err(UpdateFailure::MissingTagName),
        Err(UpdateError::MissingAssets) => Err(UpdateFailure::MissingAssets),
        Err(UpdateError::Json(_)) => Err(UpdateFailure::NotJson),
    }
}

fn copy_string(s: &String) -> (res: String)
    ensures
        res@ == s@,
{
    String::from_str(s.as_str())
}

/// Decides, for the running version `current` and the latest release `release`,
/// whether an update is available, as [`update_decision`] says.
pub fn select_update(current: &str, release: &ReleaseInfo) -> (res: Result<UpdateOutcome, UpdateError>)
    ensures
        outcome_view(res) == update_decision(current@, release@),
{
    let tag = match &release.tag_name {
        Some(t) => t,
        None => {
            return Err(UpdateError::MissingTagName);
        },
    };
    if !is_newer_version(current, tag.as_str()) {
        return Ok(UpdateOutcome::UpToDate);
    }
    let assets = match &release.assets {
        Some(a) => a,
        None => {
            return Err(UpdateError::MissingAssets);
        },
    };
    let ghost av = assets@.map_values(|x: ReleaseAsset| x@);
    let n = assets.len();
    let win1 = chars_of("windows-x64.zip");
    let win2 = chars_of("win-x64.zip");
    assert(av.skip(0) =~= av);
    for i in 0..n
        invariant
            n == assets@.len(),
            av == assets@.map_values(|x: ReleaseAsset| x@),
            win1@ == "windows-x64.zip"@,
            win2@ == "win-x64.zip"@,
            first_windows_download(av.skip(i as int)) == first_windows_download(av),
            release@.1 == Some(av),
            release@.0 == Some(tag@),
            is_newer(current@, tag@),
    {
        assert(av.skip(i as int)[0] == assets@[i as int]@);
        assert(av.skip(i as int).drop_first() =~= av.skip(i + 1));
        let a = &assets[i];
        match (&a.name, &a.browser_download_url) {
            (Some(name), Some(url)) => {
                assert(av.skip(i as int)[0] == (Some(name@), Some(url@)));
                let nc = chars_of(name.as_str());
                if contains(nc.as_slice(), win1.as_slice()) || contains(nc.as_slice(), win2.as_slice()) {
                    return Ok(UpdateOutcome::Available(copy_string(tag), copy_string(url)));
                }
            },
            _ => {},
        }
    }
    assert(av.skip(n as int) =~= Seq::<AssetView>::empty());
    Ok(UpdateOutcome::UpToDate)
}

/// What `serde_json` reads from the text `body` as the latest-release record: `None`
/// when `body` is not JSON; otherwise its `tag_name` string, and its `assets` list with
/// each entry's `name` and `browser_download_url` strings (`None` where a field is
/// missing or not of that kind).
pub uninterp spec fn release_json_fields(body: Seq<char>) -> Option<ReleaseView>;

/// Parses `body` with `serde_json::from_str` into a `serde_json::Value` and reads
/// `tag_name`, `assets`, and each asset's `name` and `browser_download_url` with
/// `Value::get`, `Value::as_str` and `Value::as_array`. Claimed: it fails exactly when
/// `release_json_fields` is `None`, and otherwise gives what that name gives; the
/// result depends on the text alone.
#[verifier::external_body]
fn parse_release_json(body: &str) -> (res: Result<ReleaseInfo, serde_json::Error>)
    ensures
        res is Ok <==> release_json_fields(body@) is Some,
        res matches Ok(r) ==> release_json_fields(body@) == Some(r@),
{
    let json: serde_json::Value = serde_json::from_str(body)?;
    let text = |v: &serde_json::Value, key: &str| v.get(key).and_then(|x| x.as_str()).map(String::from);
    Ok(ReleaseInfo {
        tag_name: text(&json, "tag_name"),
        assets: json.get("assets").and_then(|x| x.as_array()).map(|list| list.iter().map(|a| ReleaseAsset {
            name: text(a, "name"),
            browser_download_url: text(a, "browser_download_url"),
        }).collect()),
    })
}

/// Reads the latest-release record `body` (JSON text) and decides, for the running
/// version `current`, whether an update is available: `Err(Json)` when the text is not
/// JSON, otherwise as [`select_update`] decides on what was read.
pub fn update_from_release_json(current: &str, body: &str) -> (res: Result<UpdateOutcome, UpdateError>)
    ensures
        outcome_view(res) == match release_json_fields(body@) {
            None => Err(UpdateFailure::NotJson),
            Some(r) => update_decision(current@, r),
        },
{
    match parse_release_json(body) {
        Ok(release) => select_update(current, &release),
        Err(e) => Err(UpdateError::Json(e)),
    }
}

/// A file name whose extension (the part after its last `.`, when that `.` is not the
/// first character) is `exe`.
pub open spec fn is_exe_name(name: Seq<char>) -> bool {
    name.len() > 4 && has_suffix(name, ".exe"@)
}

/// The test that [`is_exe_name`] makes, as a predicate on names.
pub open spec fn exe_name_test() -> spec_fn(Seq<char>) -> bool {
    |n: Seq<char>| is_exe_name(n)
}

/// Which file of an unpacked release is the new executable.
#[derive(Debug, Clone, Copy, PartialEq, Eq, Structural)]
pub enum NewExecutable {
    /// `PVM.exe`.
    UpperCase,
    /// `pvm.exe`.
    LowerCase,
    /// The directory entry at this position.
    Entry(usize),
    /// None; the update cannot go on.
    Missing,
}

/// The new executable of an unpacked release: `PVM.exe` when it exists, else `pvm.exe`
/// when it exists, else the first entry (in directory order) whose extension is `exe`.
pub open spec fn new_executable(upper: bool, lower: bool, names: Seq<Seq<char>>) -> NewExecutable {
    if upper {
        NewExecutable::UpperCase
    } else if lower {
        NewExecutable::LowerCase
    } else {
        match first_where(names, exe_name_test()) {
            Some(k) => NewExecutable::Entry(k as usize),
            None => NewExecutable::Missing,
        }
    }
}

/// Chooses the new executable of an unpacked release, as [`new_executable`] says.
/// `upper` and `lower` say whether `PVM.exe` and `pvm.exe` exist; `names` are the
/// directory's entries.
pub fn choose_new_executable(upper: bool, lower: bool, names: &Vec<String>) -> (res: NewExecutable)
    ensures
        res == new_executable(upper, lower, names.deep_view()),
        res matches NewExecutable::Entry(k) ==> k < names@.len(),
{
    if upper {
        return NewExecutable::UpperCase;
    }
    if lower {
        return NewExecutable::LowerCase;
    }
    let ghost nv = names.deep_view();
    let ghost p = exe_name_test();
    let suffix = chars_of(".exe");
    let n = names.len();
    assert(nv.take(0) =~= Seq::<Seq<char>>::empty());
    for i in 0..n
        invariant
            n == names@.len(),
            nv == names.deep_view(),
            p == exe_name_test(),
            !upper && !lower,
            suffix@ == ".exe"@,
            first_where(nv.take(i as int), p) is None,
    {
        let c = chars_of(names[i].as_str());
        assert(nv[i as int] == names@[i as int]@);
        assert(nv.take(i + 1).drop_last() =~= nv.take(i as int));
        if c.len() > 4 && ends_with(c.as_slice(), suffix.as_slice()) {
            proof {
                lemma_first_where_prefix(nv, p, i as int);
            }
            return NewExecutable::Entry(i);
        }
    }
    assert(nv.take(n as int) =~= nv);
    NewExecutable::Missing
}

} // verus!
