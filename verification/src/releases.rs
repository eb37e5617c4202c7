//! Download links for PHP releases, read from the release listing page.

use vstd::prelude::*;

use crate::text::{
    chars_of, contains, has_prefix, has_substring, lacks, lemma_split_concat, lemma_split_nonempty,
    lemma_split_without_sep, pad_right, pad_right_string, split_chars, split_on, starts_with, string_of,
    views,
};

verus! {

broadcast use vstd::string::group_string_axioms;

/// A download link for one PHP release build.
#[derive(Debug, Clone)]
pub struct InstallUrl {
    /// Row identifier once stored; `None` for a link not stored yet.
    pub id: Option<i32>,
    /// The release version, e.g. `8.3.3`.
    pub version: String,
    /// The full download URL.
    pub url: String,
    /// `nts` (non thread safe) or `ts` (thread safe).
    pub type_: String,
    /// `x64` or `x86`.
    pub architecture: String,
}

/// The abstract form of an [`InstallUrl`].
pub struct InstallUrlView {
    pub id: Option<i32>,
    pub version: Seq<char>,
    pub url: Seq<char>,
    pub type_: Seq<char>,
    pub architecture: Seq<char>,
}

impl View for InstallUrl {
    type V = InstallUrlView;

    open spec fn view(&self) -> InstallUrlView {
        InstallUrlView {
            id: self.id,
            version: self.version@,
            url: self.url@,
            type_: self.type_@,
            architecture: self.architecture@,
        }
    }
}

/// The views of a sequence of links.
pub open spec fn url_views(v: Seq<InstallUrl>) -> Seq<InstallUrlView> {
    v.map_values(|u: InstallUrl| u@)
}

/// The host that serves the release listing.
pub open spec fn release_host() -> Seq<char> {
    "https://windows.php.net"@
}

/// The address of the release listing.
pub open spec fn release_listing() -> Seq<char> {
    "https://windows.php.net/downloads/releases/"@
}

/// A link as written in the listing, made absolute: a path from the root is put
/// after the host, a link that starts with `http` is kept, and any other link is
/// taken relative to the listing.
pub open spec fn absolute_url(href: Seq<char>) -> Seq<char> {
    if has_prefix(href, "/"@) {
        release_host() + href
    } else if has_prefix(href, "http"@) {
        href
    } else {
        release_listing() + href
    }
}

/// A link names a release build: it mentions `php-` and none of `debug`, `devel`, `test`.
pub open spec fn is_release_link(href: Seq<char>) -> bool {
    &&& has_substring(href, "php-"@)
    &&& !has_substring(href, "debug"@)
    &&& !has_substring(href, "devel"@)
    &&& !has_substring(href, "test"@)
}

/// The download that a link of the listing stands for, if any. The file name is
/// what follows the last `/`; the version is its second `-`-separated field; the
/// architecture is `x64` when the name mentions `x64` and `x86` otherwise; the
/// type is `nts` when the name mentions `nts` and `ts` otherwise.
pub open spec fn release_from_link(href: Seq<char>) -> Option<InstallUrlView> {
    let file = split_on(href, '/').last();
    let fields = split_on(file, '-');
    if is_release_link(href) && fields.len() > 1 {
        Some(
            InstallUrlView {
                id: None,
                version: fields[1],
                url: absolute_url(href),
                type_: if has_substring(file, "nts"@) {
                    "nts"@
                } else {
                    "ts"@
                },
                architecture: if has_substring(file, "x64"@) {
                    "x64"@
                } else {
                    "x86"@
                },
            },
        )
    } else {
        None
    }
}

/// The downloads that the `href` attributes of a page's links stand for, in page order
/// (links without an `href` are passed over).
pub open spec fn releases_from_links(hrefs: Seq<Option<Seq<char>>>) -> Seq<InstallUrlView>
    decreases hrefs.len(),
{
    if hrefs.len() == 0 {
        Seq::<InstallUrlView>::empty()
    } else {
        let front = releases_from_links(hrefs.drop_last());
        match hrefs.last() {
            Some(h) => match release_from_link(h) {
                Some(u) => front.push(u),
                None => front,
            },
            None => front,
        }
    }
}

/// The `href` attribute of every `a` element of the tree that `scraper` builds from the
/// HTML document `html`, in the order in which the parser inserted them into the tree
/// (elements the parser creates again, such as reopened formatting elements, count as
/// well); `None` for an `a` element without one.
pub uninterp spec fn html_anchor_hrefs(html: Seq<char>) -> Seq<Option<Seq<char>>>;

/// Parses `html` with `scraper::Html::parse_document` and collects, for every
/// element that `scraper::Selector` `a` selects, its `href` attribute. Claimed:
/// the result is `html_anchor_hrefs` of the text, which depends on the text alone.
#[verifier::external_body]
fn anchor_hrefs(html: &str) -> (res: Vec<Option<String>>)
    ensures
        res.deep_view() == html_anchor_hrefs(html@),
{
    let document = scraper::Html::parse_document(html);
    let selector = scraper::Selector::parse("a").unwrap();
    document.select(&selector).map(|a| a.value().attr("href").map(String::from)).collect()
}

/// The download that one link of the listing stands for, as [`release_from_link`] says.
pub fn release_from_href(href: &str) -> (res: Option<InstallUrl>)
    ensures
        match res {
            Some(u) => release_from_link(href@) == Some(u@),
            None => release_from_link(href@) is None,
        },
{
    let h = chars_of(href);
    let wanted = contains(h.as_slice(), chars_of("php-").as_slice()) && !contains(
        h.as_slice(),
        chars_of("debug").as_slice(),
    ) && !contains(h.as_slice(), chars_of("devel").as_slice()) && !contains(
        h.as_slice(),
        chars_of("test").as_slice(),
    );
    let segments = split_chars(h.as_slice(), '/');
    proof {
        crate::text::lemma_split_nonempty(h@, '/');
    }
    let file = segments[segments.len() - 1].as_slice();
    assert(file@ == split_on(href@, '/').last());
    let fields = split_chars(file, '-');
    if !wanted || fields.len() <= 1 {
        return None;
    }
    let version = string_of(fields[1].as_slice());
    let url = if starts_with(h.as_slice(), chars_of("/").as_slice()) {
        let mut u = String::from_str("https://windows.php.net");
        u.append(href);
        u
    } else if starts_with(h.as_slice(), chars_of("http").as_slice()) {
        string_of(h.as_slice())
    } else {
        let mut u = String::from_str("https://windows.php.net/downloads/releases/");
        u.append(href);
        u
    };
    let type_ = if contains(file, chars_of("nts").as_slice()) {
        String::from_str("nts")
    } else {
        String::from_str("ts")
    };
    let architecture = if contains(file, chars_of("x64").as_slice()) {
        String::from_str("x64")
    } else {
        String::from_str("x86")
    };
    Some(InstallUrl { id: None, version, url, type_, architecture })
}

/// The downloads that the given `href` attributes stand for, as [`releases_from_links`] says.
pub fn releases_from_hrefs(hrefs: &Vec<Option<String>>) -> (res: Vec<InstallUrl>)
    ensures
        url_views(res@) == releases_from_links(hrefs.deep_view()),
{
    let mut res: Vec<InstallUrl> = Vec::new();
    let n = hrefs.len();
    let ghost hv = hrefs.deep_view();
    assert(hv.take(0) =~= Seq::<Option<Seq<char>>>::empty());
    for i in 0..n
        invariant
            n == hrefs@.len(),
            hv == hrefs.deep_view(),
            url_views(res@) == releases_from_links(hv.take(i as int)),
    {
        assert(hv.take(i + 1).drop_last() =~= hv.take(i as int));
        assert(hv.take(i + 1).last() == hv[i as int]);
        match &hrefs[i] {
            Some(h) => {
                assert(hv[i as int] == Some(h@));
                match release_from_href(h.as_str()) {
                    Some(u) => {
                        let ghost before = url_views(res@);
                        res.push(u);
                        assert(url_views(res@) =~= before.push(u@));
                    },
                    None => {},
                }
            },
            None => {},
        }
    }
    assert(hv.take(n as int) =~= hv);
    res
}

/// The downloads offered by the release listing page `html`: the links of the
/// page, read as [`releases_from_links`] says.
pub fn scrape_php_releases_from_html(html: &str) -> (res: Vec<InstallUrl>)
    ensures
        url_views(res@) == releases_from_links(html_anchor_hrefs(html@)),
{
    let hrefs = anchor_hrefs(html);
    releases_from_hrefs(&hrefs)
}

/// One row of the table that `list-remote` prints: version, type and architecture,
/// padded to 12, 5 and 5 characters and separated by ` | `.
pub open spec fn remote_row(version: Seq<char>, type_: Seq<char>, arch: Seq<char>) -> Seq<char> {
    pad_right(version, 12) + " | "@ + pad_right(type_, 5) + " | "@ + pad_right(arch, 5)
}

/// The lines that `list-remote` prints for the stored downloads: a notice when there are
/// none, else a heading, the column titles, a rule, and one row per download.
pub open spec fn remote_listing(urls: Seq<InstallUrlView>) -> Seq<Seq<char>> {
    if urls.len() == 0 {
        seq!["No remote versions found"@]
    } else {
        seq![
            "\nAvailable remote versions:"@,
            remote_row("Version"@, "Type"@, "Arch"@),
            "-------------------------------"@,
        ] + urls.map_values(|u: InstallUrlView| remote_row(u.version, u.type_, u.architecture))
    }
}

/// One row of the `list-remote` table, as [`remote_row`] says.
pub fn remote_row_line(version: &str, type_: &str, arch: &str) -> (res: String)
    ensures
        res@ == remote_row(version@, type_@, arch@),
{
    let mut s = pad_right_string(version, 12);
    s.append(" | ");
    let t = pad_right_string(type_, 5);
    s.append(t.as_str());
    s.append(" | ");
    let a = pad_right_string(arch, 5);
    s.append(a.as_str());
    s
}

/// The lines that `list-remote` prints, as [`remote_listing`] says.
pub fn remote_listing_lines(urls: &Vec<InstallUrl>) -> (res: Vec<String>)
    ensures
        res.deep_view() == remote_listing(url_views(urls@)),
{
    let mut res: Vec<String> = Vec::new();
    if urls.len() == 0 {
        res.push(String::from_str("No remote versions found"));
        assert(res.deep_view() =~= remote_listing(url_views(urls@)));
        return res;
    }
    res.push(String::from_str("\nAvailable remote versions:"));
    res.push(remote_row_line("Version", "Type", "Arch"));
    res.push(String::from_str("-------------------------------"));
    let ghost head = res.deep_view();
    let ghost uv = url_views(urls@);
    let n = urls.len();
    for i in 0..n
        invariant
            n == urls@.len(),
            uv == url_views(urls@),
            res.deep_view() == head + uv.take(i as int).map_values(
                |u: InstallUrlView| remote_row(u.version, u.type_, u.architecture),
            ),
    {
        let u = &urls[i];
        let row = remote_row_line(u.version.as_str(), u.type_.as_str(), u.architecture.as_str());
        let ghost before = res.deep_view();
        res.push(row);
        assert(uv[i as int] == u@);
        assert(res.deep_view() =~= before.push(remote_row(u@.version, u@.type_, u@.architecture)));
        assert(uv.take(i + 1).map_values(|u: InstallUrlView| remote_row(u.version, u.type_, u.architecture))
            =~= uv.take(i as int).map_values(|u: InstallUrlView| remote_row(u.version, u.type_, u.architecture)).push(
            remote_row(uv[i as int].version, uv[i as int].type_, uv[i as int].architecture),
        ));
    }
    assert(uv.take(n as int) =~= uv);
    assert(res.deep_view() =~= remote_listing(uv));
    res
}

/// Every download offered comes from a link of the page that names a release build: it
/// mentions `php-` and none of `debug`, `devel`, `test`.
pub proof fn lemma_releases_come_from_release_links(hrefs: Seq<Option<Seq<char>>>)
    ensures
        forall|i: int|
            0 <= i < releases_from_links(hrefs).len() ==> exists|j: int, h: Seq<char>|
                0 <= j < hrefs.len() && hrefs[j] == Some(h) && is_release_link(h)
                    && release_from_link(h) == Some(#[trigger] releases_from_links(hrefs)[i]),
    decreases hrefs.len(),
{
    if hrefs.len() > 0 {
        let front = hrefs.drop_last();
        lemma_releases_come_from_release_links(front);
        let all = releases_from_links(hrefs);
        let before = releases_from_links(front);
        assert forall|i: int| 0 <= i < all.len() implies exists|j: int, h: Seq<char>|
            0 <= j < hrefs.len() && hrefs[j] == Some(h) && is_release_link(h)
                && release_from_link(h) == Some(#[trigger] all[i]) by {
            if i < before.len() {
                assert(all[i] == before[i]);
                let (j, h) = choose|j: int, h: Seq<char>|
                    0 <= j < front.len() && front[j] == Some(h) && is_release_link(h)
                        && release_from_link(h) == Some(before[i]);
                assert(hrefs[j] == front[j]);
            } else {
                let j = hrefs.len() - 1;
                let h = hrefs[j]->Some_0;
                assert(hrefs[j] == Some(h));
                assert(is_release_link(h));
            }
        }
    }
}

/// A link `<dir>/php-<version>-<rest>` to a release build offers version `<version>`: the
/// version is the field after `php-` in the file name (the part after the last `/`),
/// whatever follows it, and a link from the site root is completed with the host.
pub proof fn lemma_release_version_from_file_name(dir: Seq<char>, v: Seq<char>, rest: Seq<char>)
    requires
        lacks(v, '/'),
        lacks(v, '-'),
        lacks(rest, '/'),
        is_release_link(dir + seq!['/'] + "php"@ + seq!['-'] + v + seq!['-'] + rest),
    ensures
        ({
            let href = dir + seq!['/'] + "php"@ + seq!['-'] + v + seq!['-'] + rest;
            &&& release_from_link(href) is Some
            &&& release_from_link(href)->Some_0.version == v
            &&& has_prefix(href, "/"@) ==> release_from_link(href)->Some_0.url == "https://windows.php.net"@
                + href
        }),
{
    reveal_strlit("php");
    let file = "php"@ + seq!['-'] + v + seq!['-'] + rest;
    let href = dir + seq!['/'] + "php"@ + seq!['-'] + v + seq!['-'] + rest;
    assert(href =~= dir + seq!['/'] + file);
    assert(lacks(file, '/')) by {
        assert forall|i: int| 0 <= i < file.len() implies file[i] != '/' by {
            if i >= 4 && i < 4 + v.len() {
                assert(file[i] == v[i - 4]);
            } else if i >= 5 + v.len() {
                assert(file[i] == rest[i - 5 - v.len()]);
            }
        }
    }
    lemma_split_concat(dir, file, '/');
    lemma_split_without_sep(file, '/');
    assert(split_on(href, '/').last() == file);
    let tail = v + seq!['-'] + rest;
    assert(file =~= "php"@ + seq!['-'] + tail);
    lemma_split_concat("php"@, tail, '-');
    lemma_split_concat(v, rest, '-');
    assert(lacks("php"@, '-'));
    lemma_split_without_sep("php"@, '-');
    lemma_split_without_sep(v, '-');
    lemma_split_nonempty(rest, '-');
    let fields = split_on(file, '-');
    assert(fields =~= seq!["php"@] + (seq![v] + split_on(rest, '-')));
    assert(fields[1] == v);
}

} // verus!
