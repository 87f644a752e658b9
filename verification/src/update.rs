//! Version numbers `X.Y.Z`, the release tags `vX.Y.Z` of the repository, and the
//! choice of the newest release against the running version.
use vstd::prelude::*;
use crate::cloud::str_starts_with;
use crate::config::{decimal, lemma_decimal_digits, lemma_decimal_reads_back};
use crate::text::{
    all_digits, chars_of, contains_text, replace_all, replace_text, copy_range, is_digit, join, join_from, parse_u32_chars, parse_unsigned,
    split_char, split_chars, starts_with, string_of, views_are,
};

verus! {

/// A version number `major.minor.patch`.
pub type Version = (u32, u32, u32);

/// The version of this program.
pub open spec fn local_version() -> Seq<char> {
    "1.2.6"@
}

/// `major.minor.patch`: exactly three dot-separated numbers that fit in `u32`.
pub open spec fn version_of(text: Seq<char>) -> Option<Version> {
    let parts = split_char(text, '.');
    if parts.len() == 3 {
        match (
            parse_unsigned(parts[0], u32::MAX as int),
            parse_unsigned(parts[1], u32::MAX as int),
            parse_unsigned(parts[2], u32::MAX as int),
        ) {
            (Some(a), Some(b), Some(c)) => Some((a as u32, b as u32, c as u32)),
            _ => None,
        }
    } else {
        None
    }
}

/// `a` comes before `b`: by major, then minor, then patch number.
pub open spec fn version_before(a: Version, b: Version) -> bool {
    ||| a.0 < b.0
    ||| (a.0 == b.0 && a.1 < b.1)
    ||| (a.0 == b.0 && a.1 == b.1 && a.2 < b.2)
}

/// `remote` names a later version than `local`; false where either is no version.
pub open spec fn newer(local: Seq<char>, remote: Seq<char>) -> bool {
    match (version_of(local), version_of(remote)) {
        (Some(l), Some(r)) => version_before(l, r),
        _ => false,
    }
}

/// The version and the tag that the scan of `tags` settles on: among the tags that
/// start with `v`, the first one whose version is newer than every one before it.
pub open spec fn latest_tag(tags: Seq<Seq<char>>) -> (Seq<char>, Seq<char>)
    decreases tags.len(),
{
    if tags.len() == 0 {
        (Seq::<char>::empty(), Seq::<char>::empty())
    } else {
        let prev = latest_tag(tags.drop_last());
        let full = tags.last();
        if starts_with(full, "v"@) && (prev.0.len() == 0 || newer(prev.0, full.drop_first())) {
            (full.drop_first(), full)
        } else {
            prev
        }
    }
}

/// Whether an update is available, and the tag of the newest release.
pub open spec fn update_check(local: Seq<char>, tags: Seq<Seq<char>>) -> (bool, Seq<char>) {
    let latest = latest_tag(tags);
    if tags.len() == 0 || latest.0.len() == 0 {
        (false, Seq::<char>::empty())
    } else {
        (newer(local, latest.0), latest.1)
    }
}

/// A release tag `vX.Y.Z` whose three parts are each one or more decimal digits.
pub open spec fn is_version_tag(name: Seq<char>) -> bool {
    &&& starts_with(name, "v"@)
    &&& split_char(name.drop_first(), '.').len() == 3
    &&& forall|i: int|
        0 <= i < 3 ==> #[trigger] split_char(name.drop_first(), '.')[i].len() > 0 && all_digits(
            split_char(name.drop_first(), '.')[i],
        )
}

/// A tag of the repository as listed by its API: its name and message, each where given.
pub struct TagInfo {
    pub name: Option<String>,
    pub message: Option<String>,
}

/// The version tags among `tags`, in order, each with its message (empty where none).
pub open spec fn version_tags(tags: Seq<TagInfo>) -> Seq<(Seq<char>, Seq<char>)>
    decreases tags.len(),
{
    if tags.len() == 0 {
        Seq::empty()
    } else {
        let prev = version_tags(tags.drop_last());
        let t = tags.last();
        match t.name {
            Some(name) => if is_version_tag(name@) {
                prev.push(
                    (
                        name@,
                        match t.message {
                            Some(m) => m@,
                            None => Seq::<char>::empty(),
                        },
                    ),
                )
            } else {
                prev
            },
            None => prev,
        }
    }
}

/// The views of pairs of strings.
pub open spec fn pair_views(v: Seq<(String, String)>) -> Seq<(Seq<char>, Seq<char>)> {
    v.map_values(|p: (String, String)| (p.0@, p.1@))
}

/// The version part of a tag: after a leading `v`, after the
/// `Serial-Port-Debugger.` prefix, or else the whole tag.
pub open spec fn tag_version_part(tag: Seq<char>) -> Seq<char> {
    if starts_with(tag, "v"@) {
        tag.drop_first()
    } else if starts_with(tag, "Serial-Port-Debugger."@) {
        join(split_char(tag, '.').drop_first(), "."@)
    } else {
        tag
    }
}

/// A release tag and a requested tag name the same release: they are equal, or
/// their version parts are, so that `v1.2.6` and `Serial-Port-Debugger.1.2.6` name
/// the same release.
pub open spec fn release_matches(tag: Seq<char>, release_tag: Seq<char>) -> bool {
    release_tag == tag || tag_version_part(tag) == tag_version_part(release_tag)
}

/// Reads `major.minor.patch`.
pub fn parse_version(version: &str) -> (res: Option<Version>)
    ensures
        res == version_of(version@),
{
    let chars = chars_of(version);
    let parts = split_chars(chars.as_slice(), '.');
    if parts.len() != 3 {
        return None;
    }
    let major = parse_u32_chars(parts[0].as_slice());
    let minor = parse_u32_chars(parts[1].as_slice());
    let patch = parse_u32_chars(parts[2].as_slice());
    match (major, minor, patch) {
        (Some(a), Some(b), Some(c)) => Some((a, b, c)),
        _ => None,
    }
}

/// Whether `remote_version` is a later version than `local_version`.
pub fn is_version_newer(local_version: &str, remote_version: &str) -> (res: bool)
    ensures
        res == newer(local_version@, remote_version@),
{
    let local = match parse_version(local_version) {
        Some(v) => v,
        None => {
            return false;
        },
    };
    let remote = match parse_version(remote_version) {
        Some(v) => v,
        None => {
            return false;
        },
    };
    remote.0 > local.0 || (remote.0 == local.0 && remote.1 > local.1) || (remote.0 == local.0
        && remote.1 == local.1 && remote.2 > local.2)
}

/// The version of this program.
pub fn get_local_version() -> (res: String)
    ensures
        res@ == local_version(),
{
    String::from_str("1.2.6")
}

/// The string after its first character.
fn after_first(s: &str) -> (res: String)
    requires
        s@.len() > 0,
    ensures
        res@ == s@.drop_first(),
{
    let chars = chars_of(s);
    let rest = copy_range(chars.as_slice(), 1, chars.len());
    assert(rest@ =~= s@.drop_first());
    string_of(rest.as_slice())
}

/// Whether an update is available, and the tag of the newest release among the
/// listed `(tag, message)` pairs.
pub fn check_for_updates(versions: &Vec<(String, String)>) -> (res: (bool, String))
    ensures
        (res.0, res.1@) == update_check(
            local_version(),
            versions@.map_values(|p: (String, String)| p.0@),
        ),
{
    let local_version = get_local_version();
    let ghost tags = versions@.map_values(|p: (String, String)| p.0@);
    if versions.len() == 0 {
        return (false, String::new());
    }
    let mut latest_version = String::new();
    let mut latest_version_full = String::new();
    assert(tags.take(0) =~= Seq::<Seq<char>>::empty());
    for i in 0..versions.len()
        invariant
            tags == versions@.map_values(|p: (String, String)| p.0@),
            (latest_version@, latest_version_full@) == latest_tag(tags.take(i as int)),
    {
        let version_full = versions[i].0.as_str();
        assert(tags.take(i + 1).drop_last() =~= tags.take(i as int));
        assert(tags.take(i + 1).last() == version_full@);
        if str_starts_with(version_full, "v") {
            proof {
                reveal_strlit("v");
            }
            let version = after_first(version_full);
            if latest_version.as_str().unicode_len() == 0 || is_version_newer(
                latest_version.as_str(),
                version.as_str(),
            ) {
                latest_version = version;
                latest_version_full = String::from_str(version_full);
            }
        }
    }
    assert(tags.take(versions@.len() as int) =~= tags);
    if latest_version.as_str().unicode_len() == 0 {
        return (false, String::new());
    }
    let update_available = is_version_newer(local_version.as_str(), latest_version.as_str());
    (update_available, latest_version_full)
}

fn is_version_tag_name(name: &str) -> (res: bool)
    ensures
        res == is_version_tag(name@),
{
    if !str_starts_with(name, "v") {
        return false;
    }
    proof {
        reveal_strlit("v");
    }
    let version_part = after_first(name);
    let chars = chars_of(version_part.as_str());
    let parts = split_chars(chars.as_slice(), '.');
    if parts.len() != 3 {
        return false;
    }
    for k in 0..3
        invariant
            name@.len() > 0,
            parts@.len() == 3,
            views_are(parts@, split_char(name@.drop_first(), '.')),
            forall|j: int|
                0 <= j < k ==> #[trigger] split_char(name@.drop_first(), '.')[j].len() > 0
                    && all_digits(split_char(name@.drop_first(), '.')[j]),
    {
        let part = parts[k].as_slice();
        assert(part@ == split_char(name@.drop_first(), '.')[k as int]);
        if part.len() == 0 {
            return false;
        }
        for m in 0..part.len()
            invariant
                0 <= k < 3,
                part@ == split_char(name@.drop_first(), '.')[k as int],
                forall|q: int| 0 <= q < m ==> is_digit(#[trigger] part@[q]),
        {
            if !(part[m] >= '0' && part[m] <= '9') {
                assert(!is_digit(part@[m as int]));
                assert(!all_digits(split_char(name@.drop_first(), '.')[k as int]));
                return false;
            }
        }
    }
    true
}

/// The tags of the form `vX.Y.Z` (three non-empty parts of decimal digits), in order, each
/// with its message or an empty one.
pub fn select_version_tags(tags: &Vec<TagInfo>) -> (res: Vec<(String, String)>)
    ensures
        pair_views(res@) == version_tags(tags@),
{
    let mut res: Vec<(String, String)> = Vec::new();
    assert(tags@.take(0) =~= Seq::<TagInfo>::empty());
    for i in 0..tags.len()
        invariant
            pair_views(res@) == version_tags(tags@.take(i as int)),
    {
        let t = &tags[i];
        assert(tags@.take(i + 1).drop_last() =~= tags@.take(i as int));
        assert(tags@.take(i + 1).last() == *t);
        if let Some(name) = &t.name {
            if is_version_tag_name(name.as_str()) {
                let description = match &t.message {
                    Some(m) => m.clone(),
                    None => String::new(),
                };
                let ghost before = res@;
                res.push((name.clone(), description));
                assert(pair_views(res@) =~= pair_views(before).push(
                    (name@, description@),
                ));
            }
        }
    }
    assert(tags@.take(tags@.len() as int) =~= tags@);
    res
}

/// Whether the release tagged `release_tag` is the one requested as `tag`.
pub fn release_matches_tag(tag: &str, release_tag: &str) -> (res: bool)
    ensures
        res == release_matches(tag@, release_tag@),
{
    let tag_chars = chars_of(tag);
    let release_chars = chars_of(release_tag);
    let tag_version = version_part_chars(tag);
    let release_version = version_part_chars(release_tag);
    crate::text::chars_equal(release_chars.as_slice(), tag_chars.as_slice())
        || crate::text::chars_equal(tag_version.as_slice(), release_version.as_slice())
}

/// The version part of a tag.
fn version_part_chars(tag: &str) -> (res: Vec<char>)
    ensures
        res@ == tag_version_part(tag@),
{
    let chars = chars_of(tag);
    if str_starts_with(tag, "v") {
        proof {
            reveal_strlit("v");
        }
        let v = copy_range(chars.as_slice(), 1, chars.len());
        assert(v@ =~= tag@.drop_first());
        v
    } else if str_starts_with(tag, "Serial-Port-Debugger.") {
        let dot = chars_of(".");
        let parts = split_chars(chars.as_slice(), '.');
        proof {
            crate::text::lemma_split_nonempty(tag@, '.');
        }
        let v = join_from(&parts, 1, dot.as_slice());
        assert(parts@.skip(1).map_values(|p: Vec<char>| p@) =~= split_char(tag@, '.').drop_first());
        v
    } else {
        chars
    }
}

/// The raw-file URL template of the repository host.
pub open spec fn raw_url_template() -> Seq<char> {
    "https://gitee.com/{owner}/{repo}/raw/{branch}/{file}"@
}

/// The owner of the program's repository.
pub open spec fn repo_owner() -> Seq<char> {
    "tangshuier"@
}

/// The name of the program's repository.
pub open spec fn repo_name() -> Seq<char> {
    "serial-port-debugger"@
}

/// The path of the program file in the repository.
pub open spec fn target_file() -> Seq<char> {
    "target/release/串口调试器.exe"@
}

/// The URL that lists the repository's tags.
pub open spec fn tags_url_of() -> Seq<char> {
    "https://gitee.com/api/v5/repos/"@ + repo_owner() + "/"@ + repo_name() + "/tags"@
}

/// The URL that lists the repository's releases: its template with owner and name filled in.
pub open spec fn releases_url_of() -> Seq<char> {
    replace_all(
        replace_all("https://gitee.com/api/v5/repos/{owner}/{repo}/releases"@, "{owner}"@, repo_owner()),
        "{repo}"@,
        repo_name(),
    )
}

/// The URL of the program file at the branch or tag `version`: the raw-file template
/// with owner, name, `version` and the file path filled in, in that order.
pub open spec fn raw_download_url_of(version: Seq<char>) -> Seq<char> {
    replace_all(
        replace_all(
            replace_all(replace_all(raw_url_template(), "{owner}"@, repo_owner()), "{repo}"@, repo_name()),
            "{branch}"@,
            version,
        ),
        "{file}"@,
        target_file(),
    )
}

/// The URL that lists the repository's tags.
pub fn tags_url() -> (res: String)
    ensures
        res@ == tags_url_of(),
{
    let mut s = String::from_str("https://gitee.com/api/v5/repos/");
    s.append("tangshuier");
    s.append("/");
    s.append("serial-port-debugger");
    s.append("/tags");
    s
}

/// The URL that lists the repository's releases.
pub fn releases_url() -> (res: String)
    ensures
        res@ == releases_url_of(),
{
    proof {
        reveal_strlit("{owner}");
        reveal_strlit("{repo}");
    }
    let s = replace_text("https://gitee.com/api/v5/repos/{owner}/{repo}/releases", "{owner}", "tangshuier");
    replace_text(s.as_str(), "{repo}", "serial-port-debugger")
}

/// The URL of the program file at the branch or tag `version`.
pub fn raw_download_url(version: &str) -> (res: String)
    ensures
        res@ == raw_download_url_of(version@),
{
    proof {
        reveal_strlit("{owner}");
        reveal_strlit("{repo}");
        reveal_strlit("{branch}");
        reveal_strlit("{file}");
    }
    let a = replace_text("https://gitee.com/{owner}/{repo}/raw/{branch}/{file}", "{owner}", "tangshuier");
    let b = replace_text(a.as_str(), "{repo}", "serial-port-debugger");
    let c = replace_text(b.as_str(), "{branch}", version);
    replace_text(c.as_str(), "{file}", "target/release/串口调试器.exe")
}

/// A release asset as the release API lists it: its name and download URL, each
/// where given.
pub struct AssetInfo {
    pub name: Option<String>,
    pub browser_download_url: Option<String>,
}

/// The download URLs of the assets named `串口调试器.exe` that give one, in order.
pub open spec fn program_asset_urls(assets: Seq<AssetInfo>) -> Seq<Seq<char>>
    decreases assets.len(),
{
    if assets.len() == 0 {
        Seq::empty()
    } else {
        let prev = program_asset_urls(assets.drop_last());
        let a = assets.last();
        match (a.name, a.browser_download_url) {
            (Some(name), Some(url)) => if name@ == "串口调试器.exe"@ {
                prev.push(url@)
            } else {
                prev
            },
            _ => prev,
        }
    }
}

/// The download URLs of the program file among a release's assets, in the order
/// in which they are tried.
pub fn program_download_urls(assets: &Vec<AssetInfo>) -> (res: Vec<String>)
    ensures
        res@.map_values(|u: String| u@) == program_asset_urls(assets@),
{
    let mut res: Vec<String> = Vec::new();
    assert(assets@.take(0) =~= Seq::<AssetInfo>::empty());
    for i in 0..assets.len()
        invariant
            res@.map_values(|u: String| u@) == program_asset_urls(assets@.take(i as int)),
    {
        let a = &assets[i];
        assert(assets@.take(i + 1).drop_last() =~= assets@.take(i as int));
        assert(assets@.take(i + 1).last() == *a);
        if let (Some(name), Some(url)) = (&a.name, &a.browser_download_url) {
            let n = chars_of(name.as_str());
            let program = chars_of("串口调试器.exe");
            if crate::text::chars_equal(n.as_slice(), program.as_slice()) {
                let ghost before = res@;
                res.push(url.clone());
                assert(res@.map_values(|u: String| u@) =~= before.map_values(|u: String| u@).push(
                    url@,
                ));
            }
        }
    }
    assert(assets@.take(assets@.len() as int) =~= assets@);
    res
}

/// `i` is the first release whose tag names the release requested as `tag`.
pub open spec fn is_matching_release(release_tags: Seq<Option<String>>, tag: Seq<char>, i: int) -> bool {
    &&& 0 <= i < release_tags.len()
    &&& release_tags[i] matches Some(t) && release_matches(tag, t@)
    &&& forall|k: int|
        0 <= k < i ==> !(#[trigger] release_tags[k] matches Some(t) && release_matches(tag, t@))
}

/// The position of the release requested as `tag` among releases with the given
/// tag names: the first whose tag matches, if any.
pub fn find_release(release_tags: &Vec<Option<String>>, tag: &str) -> (res: Option<usize>)
    ensures
        match res {
            Some(i) => is_matching_release(release_tags@, tag@, i as int),
            None => forall|k: int|
                0 <= k < release_tags@.len() ==> !(#[trigger] release_tags@[k] matches Some(t)
                    && release_matches(tag@, t@)),
        },
{
    for i in 0..release_tags.len()
        invariant
            forall|k: int|
                0 <= k < i ==> !(#[trigger] release_tags@[k] matches Some(t) && release_matches(
                    tag@,
                    t@,
                )),
    {
        if let Some(t) = &release_tags[i] {
            if release_matches_tag(tag, t.as_str()) {
                return Some(i);
            }
        }
    }
    None
}

/// The message for a failed download of the program file from the raw-file URL:
/// large files there need a login; otherwise the status and the response.
pub open spec fn download_failure_text(status: Seq<char>, body: Seq<char>) -> Seq<char> {
    if contains_text(body, "large file require login"@) {
        "大文件下载需要登录，请手动从Gitee仓库下载对应版本的文件"@
    } else {
        "HTTP 请求失败: "@ + status + ", 响应: "@ + body
    }
}

/// The message for a failed download, from the response's status (as debug text)
/// and body.
pub fn download_failure_message(status: &str, body: &str) -> (res: String)
    ensures
        res@ == download_failure_text(status@, body@),
{
    let b = chars_of(body);
    let marker = chars_of("large file require login");
    if crate::text::chars_contain(b.as_slice(), marker.as_slice()) {
        String::from_str("大文件下载需要登录，请手动从Gitee仓库下载对应版本的文件")
    } else {
        let mut s = String::from_str("HTTP 请求失败: ");
        s.append(status);
        s.append(", 响应: ");
        s.append(body);
        s
    }
}

/// The text of the script that, after a restart, removes the old program files in
/// the program's directory `dir` and then itself.
pub open spec fn restart_script_text(dir: Seq<char>) -> Seq<char> {
    "\n@echo off\n:: Ensure we're in the correct directory\ncd /d \""@ + dir + "\"\n:: Output current directory\necho Current directory: %CD%\n:: Wait 5 seconds for main program to exit\necho Waiting 5 seconds...\ntimeout /t 5 /nobreak > nul\n:: Delete old version files with timestamp\necho Deleting old version files...\ndel \"串口调试器.old_*.exe\" /f /q\nif errorlevel 1 (\n    echo Delete failed, error code: %errorlevel%\n) else (\n    echo Delete successful\n)\n:: Wait 2 seconds to ensure deletion is complete\ntimeout /t 2 /nobreak > nul\n:: Delete batch file itself\necho Deleting batch file...\ndel \"%~f0\" /f /q\n"@
}

/// The restart script for the program's directory `dir`.
pub fn restart_script(dir: &str) -> (res: String)
    ensures
        res@ == restart_script_text(dir@),
{
    let mut s = String::from_str("\n@echo off\n:: Ensure we're in the correct directory\ncd /d \"");
    s.append(dir);
    s.append("\"\n:: Output current directory\necho Current directory: %CD%\n:: Wait 5 seconds for main program to exit\necho Waiting 5 seconds...\ntimeout /t 5 /nobreak > nul\n:: Delete old version files with timestamp\necho Deleting old version files...\ndel \"串口调试器.old_*.exe\" /f /q\nif errorlevel 1 (\n    echo Delete failed, error code: %errorlevel%\n) else (\n    echo Delete successful\n)\n:: Wait 2 seconds to ensure deletion is complete\ntimeout /t 2 /nobreak > nul\n:: Delete batch file itself\necho Deleting batch file...\ndel \"%~f0\" /f /q\n");
    s
}

/// Each character as its byte where it is ASCII, else `?`.
pub open spec fn ascii_or_question(text: Seq<char>) -> Seq<u8> {
    text.map_values(|c: char| if (c as u32) < 128 { (c as u32) as u8 } else { 63u8 })
}

/// The text as ASCII bytes, each other character written as `?`.
pub fn ascii_bytes(text: &str) -> (res: Vec<u8>)
    ensures
        res@ == ascii_or_question(text@),
{
    let chars = chars_of(text);
    let mut res: Vec<u8> = Vec::new();
    for i in 0..chars.len()
        invariant
            chars@ == text@,
            res@ == ascii_or_question(chars@.take(i as int)),
    {
        let c = chars[i] as u32;
        let b: u8 = if c < 128 { c as u8 } else { 63u8 };
        res.push(b);
        assert(ascii_or_question(chars@.take(i + 1)) =~= ascii_or_question(chars@.take(i as int)).push(b));
    }
    assert(chars@.take(chars@.len() as int) =~= chars@);
    res
}

/// Version order is strict: no version is newer than itself, and of two versions at
/// most one is newer than the other.
pub proof fn lemma_newer_is_strict(a: Seq<char>, b: Seq<char>)
    ensures
        !newer(a, a),
        !(newer(a, b) && newer(b, a)),
{
}

/// Version order is transitive.
pub proof fn lemma_newer_is_transitive(a: Seq<char>, b: Seq<char>, c: Seq<char>)
    requires
        newer(a, b),
        newer(b, c),
    ensures
        newer(a, c),
{
}

/// The tags that the scan of the release list looks at: each starts with `v` and
/// names a version.
pub open spec fn all_version_tags(tags: Seq<Seq<char>>) -> bool {
    forall|i: int|
        0 <= i < tags.len() ==> starts_with(#[trigger] tags[i], "v"@) && version_of(
            tags[i].drop_first(),
        ) is Some
}

/// Where every tag is `v` and a version, the scan settles on one of the tags and
/// no tag is newer than it.
pub proof fn lemma_latest_tag_is_newest(tags: Seq<Seq<char>>)
    requires
        all_version_tags(tags),
    ensures
        tags.len() > 0 ==> tags.contains(latest_tag(tags).1) && latest_tag(tags).0 == latest_tag(
            tags,
        ).1.drop_first() && version_of(latest_tag(tags).0) is Some,
        forall|i: int| 0 <= i < tags.len() ==> !newer(latest_tag(tags).0, #[trigger] tags[i].drop_first()),
    decreases tags.len(),
{
    if tags.len() > 0 {
        let rest = tags.drop_last();
        assert(all_version_tags(rest)) by {
            assert forall|i: int| 0 <= i < rest.len() implies starts_with(#[trigger] rest[i], "v"@)
                && version_of(rest[i].drop_first()) is Some by {
                assert(rest[i] == tags[i]);
            }
        }
        lemma_latest_tag_is_newest(rest);
        let prev = latest_tag(rest);
        let full = tags.last();
        assert(starts_with(tags[tags.len() - 1], "v"@));
        assert(version_of(tags[tags.len() - 1].drop_first()) is Some);
        if rest.len() > 0 {
            let j = choose|j: int| 0 <= j < rest.len() && rest[j] == prev.1;
            assert(rest[j] == tags[j]);
            if version_of(prev.0) is Some {
                assert(split_char(prev.0, '.').len() == 3);
            }
            assert(prev.0.len() > 0) by {
                if prev.0.len() == 0 {
                    assert(split_char(prev.0, '.') =~= seq![Seq::<char>::empty()]);
                }
            }
        }
        if rest.len() == 0 {
            assert(latest_tag(tags).1 == tags[0]);
        } else if newer(prev.0, full.drop_first()) {
            assert(tags[tags.len() - 1] == full);
        } else {
            let j = choose|j: int| 0 <= j < rest.len() && rest[j] == prev.1;
            assert(tags[j] == rest[j]);
        }
        assert forall|i: int| 0 <= i < tags.len() implies !newer(
            latest_tag(tags).0,
            #[trigger] tags[i].drop_first(),
        ) by {
            if i < tags.len() - 1 {
                assert(tags[i] == rest[i]);
            }
        }
    }
}

/// The update check reports an update exactly when some listed release is newer
/// than the running version, and then names one of the listed tags, newer than the
/// running version and not older than any listed release (where every listed tag
/// is `v` and a version, and the running version is one).
pub proof fn lemma_update_found_iff_newer_release(local: Seq<char>, tags: Seq<Seq<char>>)
    requires
        all_version_tags(tags),
        version_of(local) is Some,
    ensures
        update_check(local, tags).0 <==> exists|i: int|
            0 <= i < tags.len() && #[trigger] newer(local, tags[i].drop_first()),
        update_check(local, tags).0 ==> tags.contains(update_check(local, tags).1) && newer(
            local,
            update_check(local, tags).1.drop_first(),
        ),
        update_check(local, tags).0 ==> forall|i: int|
            0 <= i < tags.len() ==> !newer(
                update_check(local, tags).1.drop_first(),
                #[trigger] tags[i].drop_first(),
            ),
{
    lemma_latest_tag_is_newest(tags);
    let latest = latest_tag(tags);
    if tags.len() > 0 {
        assert(latest.0.len() > 0) by {
            if latest.0.len() == 0 {
                assert(split_char(latest.0, '.') =~= seq![Seq::<char>::empty()]);
            }
        }
        let j = choose|j: int| 0 <= j < tags.len() && tags[j] == latest.1;
        if update_check(local, tags).0 {
            assert(newer(local, tags[j].drop_first()));
        }
        assert forall|i: int| 0 <= i < tags.len() && #[trigger] newer(local, tags[i].drop_first())
            implies update_check(local, tags).0 by {
            assert(!newer(latest.0, tags[i].drop_first()));
            assert(version_of(tags[i].drop_first()) is Some);
        }
    }
}

/// A run of digits holds no dot, and splits into itself alone.
proof fn lemma_digits_split(d: Seq<char>)
    requires
        all_digits(d),
    ensures
        !d.contains('.'),
        split_char(d, '.') == seq![d],
{
    if d.contains('.') {
        let i = choose|i: int| 0 <= i < d.len() && d[i] == '.';
        assert(is_digit(d[i]));
    }
    crate::text::lemma_split_append(Seq::<char>::empty(), d, '.');
    assert(Seq::<char>::empty() + d =~= d);
    assert(split_char(Seq::<char>::empty(), '.') =~= seq![Seq::<char>::empty()]);
}

/// The decimal text `a.b.c` of three numbers, as `format!("{}.{}.{}", a, b, c)` writes it.
pub open spec fn version_text(a: u32, b: u32, c: u32) -> Seq<char> {
    decimal(a as nat) + "."@ + decimal(b as nat) + "."@ + decimal(c as nat)
}

proof fn lemma_version_text_split(a: u32, b: u32, c: u32)
    ensures
        split_char(version_text(a, b, c), '.') == seq![
            decimal(a as nat),
            decimal(b as nat),
            decimal(c as nat),
        ],
{
    reveal_strlit(".");
    let (da, db, dc) = (decimal(a as nat), decimal(b as nat), decimal(c as nat));
    lemma_decimal_digits(a as nat);
    lemma_decimal_digits(b as nat);
    lemma_decimal_digits(c as nat);
    lemma_digits_split(da);
    lemma_digits_split(db);
    lemma_digits_split(dc);
    let s1 = da + "."@;
    assert(s1.drop_last() =~= da);
    assert(split_char(s1, '.') =~= seq![da, Seq::<char>::empty()]);
    let s2 = s1 + db;
    crate::text::lemma_split_append(s1, db, '.');
    assert(split_char(s2, '.') =~= seq![da, db]);
    let s3 = s2 + "."@;
    assert(s3.drop_last() =~= s2);
    assert(split_char(s3, '.') =~= seq![da, db, Seq::<char>::empty()]);
    let s4 = s3 + dc;
    crate::text::lemma_split_append(s3, dc, '.');
    assert(split_char(s4, '.') =~= seq![da, db, dc]);
}

/// The decimal text `a.b.c` of three numbers reads back as those numbers.
pub proof fn lemma_version_text_reads_back(a: u32, b: u32, c: u32)
    ensures
        version_of(version_text(a, b, c)) == Some((a, b, c)),
{
    lemma_version_text_split(a, b, c);
    lemma_decimal_reads_back(a as nat, u32::MAX as int);
    lemma_decimal_reads_back(b as nat, u32::MAX as int);
    lemma_decimal_reads_back(c as nat, u32::MAX as int);
}

/// `v` and the decimal text `a.b.c` of any three numbers is a release tag.
pub proof fn lemma_written_version_is_tag(a: u32, b: u32, c: u32)
    ensures
        is_version_tag("v"@ + version_text(a, b, c)),
{
    reveal_strlit("v");
    let name = "v"@ + version_text(a, b, c);
    assert(name.drop_first() =~= version_text(a, b, c));
    assert(name.take(1) =~= "v"@);
    lemma_version_text_split(a, b, c);
    lemma_decimal_digits(a as nat);
    lemma_decimal_digits(b as nat);
    lemma_decimal_digits(c as nat);
}

/// Every listed tag that is a release tag is selected, with its message (or an
/// empty one).
pub proof fn lemma_version_tags_keep_release_tags(tags: Seq<TagInfo>, i: int)
    requires
        0 <= i < tags.len(),
        tags[i].name matches Some(n) && is_version_tag(n@),
    ensures
        version_tags(tags).contains(
            (
                tags[i].name.unwrap()@,
                match tags[i].message {
                    Some(m) => m@,
                    None => Seq::<char>::empty(),
                },
            ),
        ),
    decreases tags.len(),
{
    let entry = (
        tags[i].name.unwrap()@,
        match tags[i].message {
            Some(m) => m@,
            None => Seq::<char>::empty(),
        },
    );
    let prev = version_tags(tags.drop_last());
    if i == tags.len() - 1 {
        assert(version_tags(tags) == prev.push(entry));
        assert(version_tags(tags)[prev.len() as int] == entry);
    } else {
        assert(tags.drop_last()[i] == tags[i]);
        lemma_version_tags_keep_release_tags(tags.drop_last(), i);
        let j = choose|j: int| 0 <= j < prev.len() && prev[j] == entry;
        lemma_version_tags_grow(tags);
        assert(version_tags(tags)[j] == entry);
    }
}

/// The selection of the tags before the last is a prefix of the whole selection.
proof fn lemma_version_tags_grow(tags: Seq<TagInfo>)
    requires
        tags.len() > 0,
    ensures
        version_tags(tags.drop_last()).len() <= version_tags(tags).len(),
        forall|j: int|
            0 <= j < version_tags(tags.drop_last()).len() ==> version_tags(tags)[j]
                == #[trigger] version_tags(tags.drop_last())[j],
{
}

} // verus!
