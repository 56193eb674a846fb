//! Choosing, checking and accepting software updates: calendar-versioned
//! stable releases, the rolling development build, installer assets and
//! their SHA-256 digests.
use crate::text::{
    chars_of, parse_integer, parse_integer_exec, same, slice, split, split_exec, starts_with,
    starts_with_exec, string_of, trim, trim_exec, utf8_len, utf8_width, utf8_width_exec, views,
};
use vstd::prelude::*;

verus! {

/// Largest installer that is downloaded, in bytes.
pub const MAX_INSTALLER_SIZE: usize = 134217728;

/// How long a checked update may wait before it is installed, in seconds.
pub const CANDIDATE_LIFETIME_SECS: u64 = 900;

#[derive(Debug)]
pub struct ReleaseAsset {
    pub name: String,
    pub url: String,
    pub digest: Option<String>,
}

#[derive(Debug)]
pub struct Release {
    pub tag: String,
    pub name: String,
    pub notes: String,
    pub prerelease: bool,
    pub draft: bool,
    pub commit: String,
    pub assets: Vec<ReleaseAsset>,
}

/// An update that the operator may choose to install.
#[derive(Debug, Clone)]
pub struct AvailableUpdate {
    pub token: String,
    pub version: String,
    pub name: String,
    pub notes: String,
    pub development: bool,
}

#[derive(Debug, Clone)]
pub struct CheckResult {
    pub current_version: String,
    pub available: Option<AvailableUpdate>,
}

#[derive(Debug, Clone)]
pub struct InstallStarted {
    pub operation_id: String,
}

#[derive(Debug, Clone)]
pub struct InstallStatus {
    pub state: String,
    pub message: String,
}

/// Why an update could not be checked or installed; the texts are the
/// underlying causes.
#[derive(Debug, Clone, PartialEq, Eq)]
pub enum UpdateError {
    Version(String),
    Network(String),
    Metadata,
    Expired,
    MachineBusy,
    MissingDigest,
    Digest,
    Io(String),
    InvalidInstaller,
    Target(String),
    Launch(String),
}

pub struct AssetView {
    pub name: Seq<char>,
    pub url: Seq<char>,
    pub digest: Option<Seq<char>>,
}

pub struct ReleaseView {
    pub tag: Seq<char>,
    pub name: Seq<char>,
    pub notes: Seq<char>,
    pub prerelease: bool,
    pub draft: bool,
    pub commit: Seq<char>,
    pub assets: Seq<AssetView>,
}

impl View for ReleaseAsset {
    type V = AssetView;

    open spec fn view(&self) -> AssetView {
        AssetView {
            name: self.name@,
            url: self.url@,
            digest: match self.digest {
                Some(d) => Some(d@),
                None => None,
            },
        }
    }
}

impl View for Release {
    type V = ReleaseView;

    open spec fn view(&self) -> ReleaseView {
        ReleaseView {
            tag: self.tag@,
            name: self.name@,
            notes: self.notes@,
            prerelease: self.prerelease,
            draft: self.draft,
            commit: self.commit@,
            assets: self.assets@.map_values(|a: ReleaseAsset| a@),
        }
    }
}

pub open spec fn releases_view(rs: Seq<Release>) -> Seq<ReleaseView> {
    rs.map_values(|r: Release| r@)
}

// ---------------------------------------------------------------------------
// Installer assets.
/// The leading characters of `s` whose UTF-8 encoding is exactly `n` bytes
/// long, as `str::get(..n)` returns them.
pub open spec fn byte_prefix(s: Seq<char>, n: nat) -> Option<Seq<char>>
    decreases s.len(),
{
    if n == 0 {
        Some(Seq::<char>::empty())
    } else if s.len() == 0 || utf8_width(s[0]) > n {
        None
    } else {
        match byte_prefix(s.drop_first(), (n - utf8_width(s[0])) as nat) {
            Some(p) => Some(seq![s[0]] + p),
            None => None,
        }
    }
}

pub open spec fn is_dev(tag: Seq<char>) -> bool {
    tag == "dev"@
}

/// Whether a release asset carries a SHA-256 digest field.
pub open spec fn digest_ok(d: Option<Seq<char>>) -> bool {
    match d {
        Some(v) => starts_with(v, "sha256:"@) && utf8_len(v) == 71,
        None => false,
    }
}

/// What names the installer of a release: the first seven bytes of the
/// commit for the development build, the tag otherwise.
pub open spec fn qualifier(r: ReleaseView) -> Option<Seq<char>> {
    if is_dev(r.tag) {
        byte_prefix(r.commit, 7)
    } else {
        Some(r.tag)
    }
}

pub open spec fn installer_name(q: Seq<char>) -> Seq<char> {
    "pimprobe-linux-arm64-"@ + q + ".run"@
}

pub open spec fn is_installer(a: AssetView, q: Seq<char>) -> bool {
    a.name == installer_name(q) && digest_ok(a.digest)
}

/// The first installer asset at or after index `k`.
pub open spec fn find_installer(assets: Seq<AssetView>, q: Seq<char>, k: int) -> Option<int>
    decreases assets.len() - k,
{
    if k < 0 || k >= assets.len() {
        None
    } else if is_installer(assets[k], q) {
        Some(k)
    } else {
        find_installer(assets, q, k + 1)
    }
}

/// The index of a release's installer asset, if it has one.
pub open spec fn installer_index(r: ReleaseView) -> Option<int> {
    match qualifier(r) {
        Some(q) => find_installer(r.assets, q, 0),
        None => None,
    }
}

// ---------------------------------------------------------------------------
// Versions.
/// A stable tag `YYYY.MM.N`: a four-byte year, a two-byte month in 1..=12
/// and a sequence number without leading zeros.
pub open spec fn stable_version(tag: Seq<char>) -> Option<(u32, u32, u32)> {
    let p = split(tag, '.');
    if p.len() != 3 {
        None
    } else if utf8_len(p[0]) != 4 || utf8_len(p[1]) != 2 || p[2].len() == 0 || (utf8_len(p[2]) > 1
        && p[2][0] == '0') {
        None
    } else {
        match (
            parse_integer(p[0], 0, 0xffff_ffff),
            parse_integer(p[1], 0, 0xffff_ffff),
            parse_integer(p[2], 0, 0xffff_ffff),
        ) {
            (Some(y), Some(m), Some(s)) => if 1 <= m <= 12 {
                Some((y as u32, m as u32, s as u32))
            } else {
                None
            },
            _ => None,
        }
    }
}

/// Calendar order of versions.
pub open spec fn version_le(a: (u32, u32, u32), b: (u32, u32, u32)) -> bool {
    a.0 < b.0 || (a.0 == b.0 && (a.1 < b.1 || (a.1 == b.1 && a.2 <= b.2)))
}

pub open spec fn eligible_stable(r: ReleaseView) -> bool {
    !r.draft && !r.prerelease && installer_index(r) is Some && stable_version(r.tag) is Some
}

/// The newest eligible stable release among `rs`; of equal versions, the
/// last one listed.
pub open spec fn newest_stable(rs: Seq<ReleaseView>) -> Option<int>
    decreases rs.len(),
{
    if rs.len() == 0 {
        None
    } else {
        let prev = newest_stable(rs.drop_last());
        let i = rs.len() - 1;
        if eligible_stable(rs[i]) && (prev is None || version_le(
            stable_version(rs[prev->0].tag)->0,
            stable_version(rs[i].tag)->0,
        )) {
            Some(i)
        } else {
            prev
        }
    }
}

/// The stable release to offer: the newest one, unless the installed
/// version is a stable version at least as new.
pub open spec fn stable_choice(rs: Seq<ReleaseView>, current: Seq<char>) -> Option<int> {
    match newest_stable(rs) {
        None => None,
        Some(i) => match stable_version(current) {
            Some(v) => if version_le(stable_version(rs[i].tag)->0, v) {
                None
            } else {
                Some(i)
            },
            None => Some(i),
        },
    }
}

pub open spec fn eligible_dev(r: ReleaseView) -> bool {
    is_dev(r.tag) && r.prerelease && !r.draft && installer_index(r) is Some
}

/// The first development release at or after index `k`.
pub open spec fn find_dev(rs: Seq<ReleaseView>, k: int) -> Option<int>
    decreases rs.len() - k,
{
    if k < 0 || k >= rs.len() {
        None
    } else if eligible_dev(rs[k]) {
        Some(k)
    } else {
        find_dev(rs, k + 1)
    }
}

/// Whether the installed commit is the release's commit: at least seven
/// bytes, and one a prefix of the other.
pub open spec fn same_commit(commit: Seq<char>, current: Seq<char>) -> bool {
    utf8_len(current) >= 7 && (starts_with(commit, current) || starts_with(current, commit))
}

/// The development release to offer: the first listed one, unless it is the
/// installed commit.
pub open spec fn development_choice(rs: Seq<ReleaseView>, current: Seq<char>) -> Option<int> {
    match find_dev(rs, 0) {
        Some(i) => if same_commit(rs[i].commit, current) {
            None
        } else {
            Some(i)
        },
        None => None,
    }
}

// ---------------------------------------------------------------------------
// Exec.
fn copy_asset(a: &ReleaseAsset) -> (c: ReleaseAsset)
    ensures
        c@ == a@,
{
    ReleaseAsset {
        name: a.name.clone(),
        url: a.url.clone(),
        digest: match &a.digest {
            Some(d) => Some(d.clone()),
            None => None,
        },
    }
}

fn copy_release(r: &Release) -> (c: Release)
    ensures
        c@ == r@,
{
    let mut assets: Vec<ReleaseAsset> = Vec::new();
    let mut i: usize = 0;
    while i < r.assets.len()
        invariant
            i <= r.assets.len(),
            assets@.map_values(|a: ReleaseAsset| a@) == r.assets@.map_values(
                |a: ReleaseAsset| a@,
            ).take(i as int),
        decreases r.assets.len() - i,
    {
        let a = copy_asset(&r.assets[i]);
        let ghost before = assets@;
        assets.push(a);
        assert(assets@.map_values(|a: ReleaseAsset| a@) =~= before.map_values(
            |a: ReleaseAsset| a@,
        ).push(a@));
        i += 1;
        assert(assets@.map_values(|a: ReleaseAsset| a@) =~= r.assets@.map_values(
            |a: ReleaseAsset| a@,
        ).take(i as int));
    }
    assert(r.assets@.map_values(|a: ReleaseAsset| a@).take(r.assets.len() as int) =~= r.assets@.map_values(
        |a: ReleaseAsset| a@));
    Release {
        tag: r.tag.clone(),
        name: r.name.clone(),
        notes: r.notes.clone(),
        prerelease: r.prerelease,
        draft: r.draft,
        commit: r.commit.clone(),
        assets: assets,
    }
}

proof fn lemma_byte_prefix_step(s: Seq<char>, i: int, n: nat)
    requires
        0 <= i < s.len(),
        n > 0,
        utf8_width(s[i]) <= n,
    ensures
        byte_prefix(s.subrange(i, s.len() as int), n) == match byte_prefix(
            s.subrange(i + 1, s.len() as int),
            (n - utf8_width(s[i])) as nat,
        ) {
            Some(p) => Some(seq![s[i]] + p),
            None => None::<Seq<char>>,
        },
{
    let t = s.subrange(i, s.len() as int);
    assert(t[0] == s[i]);
    assert(t.drop_first() =~= s.subrange(i + 1, s.len() as int));
}

/// The leading characters of `s` that make up exactly `n` UTF-8 bytes.
pub fn byte_prefix_exec(s: &[char], n: usize) -> (r: Option<Vec<char>>)
    requires
        n <= 64,
    ensures
        match r {
            Some(v) => byte_prefix(s@, n as nat) == Some(v@),
            None => byte_prefix(s@, n as nat) is None,
        },
{
    let mut i: usize = 0;
    let mut used: usize = 0;
    assert(s@.subrange(0, s@.len() as int) =~= s@);
    while used < n && i < s.len() && utf8_width_exec(s[i]) <= n - used
        invariant
            i <= s.len(),
            used <= n <= 64,
            byte_prefix(s@, n as nat) == match byte_prefix(
                s@.subrange(i as int, s@.len() as int),
                (n - used) as nat,
            ) {
                Some(p) => Some(s@.subrange(0, i as int) + p),
                None => None::<Seq<char>>,
            },
        decreases s.len() - i,
    {
        proof {
            lemma_byte_prefix_step(s@, i as int, (n - used) as nat);
            assert(s@.subrange(0, i as int) + seq![s@[i as int]] =~= s@.subrange(0, i + 1));
            assert forall|p: Seq<char>| #![auto]
                s@.subrange(0, i as int) + (seq![s@[i as int]] + p) == s@.subrange(0, i + 1) + p by {
                assert(s@.subrange(0, i as int) + (seq![s@[i as int]] + p) =~= s@.subrange(0, i + 1)
                    + p);
            }
        }
        used += utf8_width_exec(s[i]);
        i += 1;
    }
    if used == n {
        assert(s@.subrange(0, i as int) + Seq::<char>::empty() =~= s@.subrange(0, i as int));
        Some(slice(s, 0, i))
    } else {
        assert(s@.subrange(i as int, s@.len() as int).len() == 0 || utf8_width(
            s@.subrange(i as int, s@.len() as int)[0],
        ) > (n - used));
        None
    }
}

fn is_dev_exec(tag: &String) -> (r: bool)
    ensures
        r == is_dev(tag@),
{
    same(&chars_of(tag.as_str()), &chars_of("dev"))
}

fn utf8_len_exec(s: &[char]) -> (r: usize)
    requires
        s.len() < 0x1000_0000,
    ensures
        r == utf8_len(s@),
{
    let mut n: usize = 0;
    let mut i: usize = 0;
    assert(s@.take(0) =~= Seq::<char>::empty());
    while i < s.len()
        invariant
            i <= s.len() < 0x1000_0000,
            n == utf8_len(s@.take(i as int)),
            n <= 4 * i,
        decreases s.len() - i,
    {
        assert(s@.take(i + 1).drop_last() =~= s@.take(i as int));
        n += utf8_width_exec(s[i]);
        i += 1;
    }
    assert(s@.take(s.len() as int) =~= s@);
    n
}

/// Whether a release asset's digest field names a SHA-256 digest.
fn digest_ok_exec(d: &Option<String>) -> (r: bool)
    ensures
        r == digest_ok(match d {
            Some(v) => Some(v@),
            None => None,
        }),
{
    match d {
        None => false,
        Some(v) => {
            let c = chars_of(v.as_str());
            if c.len() > 71 {
                proof {
                    lemma_utf8_len_ge(c@);
                }
                return false;
            }
            starts_with_exec(&c, &chars_of("sha256:")) && utf8_len_exec(&c) == 71
        },
    }
}

proof fn lemma_utf8_len_ge(s: Seq<char>)
    ensures
        utf8_len(s) >= s.len(),
    decreases s.len(),
{
    if s.len() > 0 {
        lemma_utf8_len_ge(s.drop_last());
    }
}

fn qualifier_exec(r: &Release) -> (q: Option<Vec<char>>)
    ensures
        match q {
            Some(v) => qualifier(r@) == Some(v@),
            None => qualifier(r@) is None,
        },
{
    if is_dev_exec(&r.tag) {
        byte_prefix_exec(&chars_of(r.commit.as_str()), 7)
    } else {
        Some(chars_of(r.tag.as_str()))
    }
}

/// The installer asset of a release: named after the tag (or, for the
/// development build, the first seven bytes of the commit) and carrying a
/// SHA-256 digest. The first such asset is the installer.
#[verifier::loop_isolation(false)]
pub fn installer_asset(release: &Release) -> (r: Option<&ReleaseAsset>)
    ensures
        match (r, installer_index(release@)) {
            (Some(a), Some(i)) => a@ == release@.assets[i],
            (None, None) => true,
            _ => false,
        },
{
    let q = match qualifier_exec(release) {
        None => return None,
        Some(q) => q,
    };
    let mut expected = chars_of("pimprobe-linux-arm64-");
    crate::text::append(&mut expected, &q);
    crate::text::append(&mut expected, &chars_of(".run"));
    assert(expected@ =~= installer_name(q@));
    let ghost assets = release@.assets;
    let mut i: usize = 0;
    while i < release.assets.len()
        invariant
            i <= release.assets.len(),
            assets == release@.assets,
            assets.len() == release.assets.len(),
            find_installer(assets, q@, 0) == find_installer(assets, q@, i as int),
        decreases release.assets.len() - i,
    {
        let a = &release.assets[i];
        assert(assets[i as int] == a@);
        let named = same(&chars_of(a.name.as_str()), &expected);
        let signed = digest_ok_exec(&a.digest);
        assert((named && signed) == is_installer(assets[i as int], q@));
        if named && signed {
            return Some(a);
        }
        i += 1;
    }
    None
}

fn parse_u32(s: &[char]) -> (r: Option<u32>)
    ensures
        match r {
            Some(v) => parse_integer(s@, 0, 0xffff_ffff) == Some(v as int),
            None => parse_integer(s@, 0, 0xffff_ffff) is None,
        },
{
    match parse_integer_exec(s, 0, 0xffff_ffff) {
        Some(v) => Some(v as u32),
        None => None,
    }
}

/// Reads a stable tag `YYYY.MM.N`.
pub fn stable_version_exec(tag: &str) -> (r: Option<(u32, u32, u32)>)
    ensures
        r == stable_version(tag@),
{
    let p = split_exec(&chars_of(tag), '.');
    if p.len() != 3 {
        return None;
    }
    if p[0].len() > 4 || p[1].len() > 2 {
        proof {
            lemma_utf8_len_ge(p@[0]@);
            lemma_utf8_len_ge(p@[1]@);
        }
        return None;
    }
    if p[2].len() >= 0x1000_0000 {
        proof {
            lemma_utf8_len_ge(p@[2]@);
        }
        let y = parse_u32(&p[0]);
        let m = parse_u32(&p[1]);
        // A sequence this long cannot be a u32 without leading zeros.
        if utf8_len_exec(&p[0]) != 4 || utf8_len_exec(&p[1]) != 2 || p[2][0] == '0' {
            return None;
        }
        let s = parse_u32(&p[2]);
        return match (y, m, s) {
            (Some(y), Some(m), Some(s)) => if 1 <= m && m <= 12 {
                Some((y, m, s))
            } else {
                None
            },
            _ => None,
        };
    }
    if utf8_len_exec(&p[0]) != 4 || utf8_len_exec(&p[1]) != 2 || p[2].len() == 0 || (utf8_len_exec(
        &p[2],
    ) > 1 && p[2][0] == '0') {
        return None;
    }
    match (parse_u32(&p[0]), parse_u32(&p[1]), parse_u32(&p[2])) {
        (Some(y), Some(m), Some(s)) => if 1 <= m && m <= 12 {
            Some((y, m, s))
        } else {
            None
        },
        _ => None,
    }
}

fn version_le_exec(a: (u32, u32, u32), b: (u32, u32, u32)) -> (r: bool)
    ensures
        r == version_le(a, b),
{
    a.0 < b.0 || (a.0 == b.0 && (a.1 < b.1 || (a.1 == b.1 && a.2 <= b.2)))
}

/// The newest stable release that has an installer, unless the installed
/// version is a stable version at least as new.
pub fn select_stable(releases: &[Release], current: &str) -> (r: Option<Release>)
    ensures
        match (r, stable_choice(releases_view(releases@), current@)) {
            (Some(rel), Some(i)) => rel@ == releases@[i]@,
            (None, None) => true,
            _ => false,
        },
{
    let ghost rs = releases_view(releases@);
    let mut best: Option<(usize, (u32, u32, u32))> = None;
    let mut i: usize = 0;
    assert(rs.take(0) =~= Seq::<ReleaseView>::empty());
    while i < releases.len()
        invariant
            i <= releases.len(),
            rs == releases_view(releases@),
            rs.len() == releases.len(),
            match (best, newest_stable(rs.take(i as int))) {
                (Some((b, v)), Some(j)) => b == j && b < i && stable_version(rs[j].tag) == Some(v),
                (None, None) => true,
                _ => false,
            },
        decreases releases.len() - i,
    {
        let r = &releases[i];
        let ghost t = rs.take(i + 1);
        assert(t.drop_last() =~= rs.take(i as int));
        assert(t[i as int] == r@);
        let eligible = !r.draft && !r.prerelease && installer_asset(r).is_some();
        if eligible {
            match stable_version_exec(r.tag.as_str()) {
                Some(v) => {
                    let replace = match best {
                        None => true,
                        Some((_, bv)) => version_le_exec(bv, v),
                    };
                    if replace {
                        best = Some((i, v));
                    }
                },
                None => {},
            }
        }
        i += 1;
    }
    assert(rs.take(releases.len() as int) =~= rs);
    match best {
        None => None,
        Some((b, v)) => {
            match stable_version_exec(current) {
                Some(c) => if version_le_exec(v, c) {
                    return None;
                },
                None => {},
            }
            Some(copy_release(&releases[b]))
        },
    }
}

fn same_commit_exec(commit: &str, current: &str) -> (r: bool)
    ensures
        r == same_commit(commit@, current@),
{
    let c = chars_of(current);
    let k = chars_of(commit);
    let long_enough = if c.len() >= 7 {
        proof {
            lemma_utf8_len_ge(c@);
        }
        true
    } else {
        utf8_len_exec(&c) >= 7
    };
    long_enough && (starts_with_exec(&k, &c) || starts_with_exec(&c, &k))
}

/// The development build, unless it is the installed commit.
pub fn select_development(releases: &[Release], current: &str) -> (r: Option<Release>)
    ensures
        match (r, development_choice(releases_view(releases@), current@)) {
            (Some(rel), Some(i)) => rel@ == releases@[i]@,
            (None, None) => true,
            _ => false,
        },
{
    let ghost rs = releases_view(releases@);
    let mut i: usize = 0;
    while i < releases.len()
        invariant
            i <= releases.len(),
            rs == releases_view(releases@),
            rs.len() == releases.len(),
            find_dev(rs, 0) == find_dev(rs, i as int),
        decreases releases.len() - i,
    {
        let r = &releases[i];
        assert(rs[i as int] == r@);
        if is_dev_exec(&r.tag) && r.prerelease && !r.draft && installer_asset(r).is_some() {
            if same_commit_exec(r.commit.as_str(), current) {
                return None;
            }
            return Some(copy_release(r));
        }
        i += 1;
    }
    None
}

/// The installer size after another downloaded chunk, refused beyond
/// `MAX_INSTALLER_SIZE`.
pub fn checked_download_size(current: usize, additional: usize) -> (r: Result<usize, UpdateError>)
    ensures
        current + additional <= MAX_INSTALLER_SIZE ==> r == Ok::<usize, UpdateError>(
            (current + additional) as usize,
        ),
        current + additional > MAX_INSTALLER_SIZE ==> (r matches Err(UpdateError::Io(m)) && m@
            == "release installer is too large"@),
{
    if additional > MAX_INSTALLER_SIZE || current > MAX_INSTALLER_SIZE - additional {
        return Err(UpdateError::Io("release installer is too large".to_owned()));
    }
    Ok(current + additional)
}

/// Whether an update checked `age_nanos` ago may still be installed.
pub fn age_is_fresh(age_nanos: u128) -> (r: bool)
    ensures
        r == (age_nanos <= CANDIDATE_LIFETIME_SECS as int * 1_000_000_000),
{
    age_nanos <= (CANDIDATE_LIFETIME_SECS as u128) * 1_000_000_000
}

/// A monotonic clock reading.
#[verifier::external_type_specification]
#[verifier::external_body]
pub struct ExInstant(std::time::Instant);

/// The nanoseconds from `created` to `now` (zero when `now` is earlier), as
/// `Instant::saturating_duration_since` and `Duration::as_nanos` give them:
/// a function of the two readings alone.
pub uninterp spec fn elapsed_nanos(created: std::time::Instant, now: std::time::Instant) -> u128;

/// `now.saturating_duration_since(created).as_nanos()`: the time between two
/// readings in nanoseconds, zero between a reading and itself.
#[verifier::external_body]
fn nanos_between(created: std::time::Instant, now: std::time::Instant) -> (r: u128)
    ensures
        r == elapsed_nanos(created, now),
        created == now ==> r == 0,
{
    now.saturating_duration_since(created).as_nanos()
}

/// Whether an update checked at `created` may still be installed at `now`:
/// whether the time between them is within `CANDIDATE_LIFETIME_SECS`; a
/// candidate is always fresh at the moment it was checked.
pub fn candidate_is_fresh(created: std::time::Instant, now: std::time::Instant) -> (r: bool)
    ensures
        r == (elapsed_nanos(created, now) <= CANDIDATE_LIFETIME_SECS as int * 1_000_000_000),
        created == now ==> r,
{
    age_is_fresh(nanos_between(created, now))
}

} // verus!

verus! {

proof fn lemma_newest(rs: Seq<ReleaseView>)
    ensures
        match newest_stable(rs) {
            Some(i) => 0 <= i < rs.len() && eligible_stable(rs[i]) && forall|j: int|
                0 <= j < rs.len() && eligible_stable(#[trigger] rs[j]) ==> version_le(
                    stable_version(rs[j].tag)->0,
                    stable_version(rs[i].tag)->0,
                ),
            None => forall|j: int| 0 <= j < rs.len() ==> !eligible_stable(#[trigger] rs[j]),
        },
    decreases rs.len(),
{
    if rs.len() > 0 {
        let p = rs.drop_last();
        lemma_newest(p);
        assert forall|j: int| 0 <= j < p.len() implies p[j] == rs[j] by {}
    }
}

/// Stable updates only move forward: an offered release is an eligible
/// stable release (not a draft or prerelease, with an installer and a
/// calendar version), no eligible release is newer, and the installed
/// version, when it is a stable version, is older. When nothing is offered,
/// either no release is eligible or the installed stable version is at
/// least as new as every eligible one.
pub proof fn lemma_stable_updates_move_forward(rs: Seq<ReleaseView>, current: Seq<char>)
    ensures
        match stable_choice(rs, current) {
            Some(i) => {
                &&& 0 <= i < rs.len()
                &&& eligible_stable(rs[i])
                &&& forall|j: int|
                    0 <= j < rs.len() && eligible_stable(#[trigger] rs[j]) ==> version_le(
                        stable_version(rs[j].tag)->0,
                        stable_version(rs[i].tag)->0,
                    )
                &&& stable_version(current) matches Some(v) ==> !version_le(
                    stable_version(rs[i].tag)->0,
                    v,
                )
            },
            None => forall|j: int|
                0 <= j < rs.len() && eligible_stable(#[trigger] rs[j]) ==> (stable_version(
                    current,
                ) matches Some(v) && version_le(stable_version(rs[j].tag)->0, v)),
        },
{
    lemma_newest(rs);
}

/// A development update is never the installed commit, and it is the first
/// listed development build with an installer.
pub proof fn lemma_development_is_new(rs: Seq<ReleaseView>, current: Seq<char>)
    ensures
        development_choice(rs, current) matches Some(i) ==> {
            &&& 0 <= i < rs.len()
            &&& eligible_dev(rs[i])
            &&& !same_commit(rs[i].commit, current)
            &&& forall|j: int| 0 <= j < i ==> !eligible_dev(#[trigger] rs[j])
        },
{
    lemma_find_dev(rs, 0);
}

proof fn lemma_find_dev(rs: Seq<ReleaseView>, k: int)
    requires
        0 <= k,
    ensures
        find_dev(rs, k) matches Some(i) ==> k <= i < rs.len() && eligible_dev(rs[i]) && forall|
            j: int,
        | k <= j < i ==> !eligible_dev(#[trigger] rs[j]),
    decreases rs.len() - k,
{
    if k < rs.len() && !eligible_dev(rs[k]) {
        lemma_find_dev(rs, k + 1);
    }
}

} // verus!

verus! {

/// The SHA-256 digest of a byte string, as `sha2::Sha256` computes it.
pub uninterp spec fn sha256(data: Seq<u8>) -> Seq<u8>;

/// `sha2::Sha256::digest`: the 32-byte SHA-256 digest of `data`.
#[verifier::external_body]
fn sha256_digest(data: &[u8]) -> (r: Vec<u8>)
    ensures
        r@ == sha256(data@),
        r@.len() == 32,
{
    <sha2::Sha256 as sha2::Digest>::digest(data).to_vec()
}

pub open spec fn hex_digit(n: u8) -> char {
    if n < 10 {
        (n + 48) as char
    } else {
        (n + 87) as char
    }
}

/// Lower-case hexadecimal text of bytes, two digits per byte.
pub open spec fn hex_lower(b: Seq<u8>) -> Seq<char>
    decreases b.len(),
{
    if b.len() == 0 {
        Seq::<char>::empty()
    } else {
        hex_lower(b.drop_last()) + seq![hex_digit(b.last() / 16), hex_digit(b.last() % 16)]
    }
}

pub open spec fn ascii_lower(c: char) -> char {
    if 'A' <= c && c <= 'Z' {
        ((c as u32) + 32) as char
    } else {
        c
    }
}

/// `str::eq_ignore_ascii_case`.
pub open spec fn eq_ignore_ascii_case(a: Seq<char>, b: Seq<char>) -> bool {
    a.len() == b.len() && forall|i: int| 0 <= i < a.len() ==> ascii_lower(a[i]) == ascii_lower(b[i])
}

fn hex_digit_exec(n: u8) -> (c: char)
    requires
        n < 16,
    ensures
        c == hex_digit(n),
{
    match n {
        0 => '0',
        1 => '1',
        2 => '2',
        3 => '3',
        4 => '4',
        5 => '5',
        6 => '6',
        7 => '7',
        8 => '8',
        9 => '9',
        10 => 'a',
        11 => 'b',
        12 => 'c',
        13 => 'd',
        14 => 'e',
        _ => 'f',
    }
}

/// Lower-case hexadecimal text of `bytes`.
pub fn hex_lower_exec(bytes: &[u8]) -> (r: Vec<char>)
    ensures
        r@ == hex_lower(bytes@),
{
    let mut r: Vec<char> = Vec::new();
    let mut i: usize = 0;
    assert(bytes@.take(0) =~= Seq::<u8>::empty());
    while i < bytes.len()
        invariant
            i <= bytes.len(),
            r@ == hex_lower(bytes@.take(i as int)),
        decreases bytes.len() - i,
    {
        let b = bytes[i];
        assert(bytes@.take(i + 1).drop_last() =~= bytes@.take(i as int));
        r.push(hex_digit_exec(b / 16));
        r.push(hex_digit_exec(b % 16));
        i += 1;
        assert(r@ =~= hex_lower(bytes@.take(i as int)));
    }
    assert(bytes@.take(bytes.len() as int) =~= bytes@);
    r
}

fn ascii_lower_exec(c: char) -> (r: char)
    ensures
        r == ascii_lower(c),
{
    if 'A' <= c && c <= 'Z' {
        let b = (c as u32 + 32) as u8;
        assert(b as u32 == c as u32 + 32);
        b as char
    } else {
        c
    }
}

fn eq_ignore_ascii_case_exec(a: &[char], b: &[char]) -> (r: bool)
    ensures
        r == eq_ignore_ascii_case(a@, b@),
{
    if a.len() != b.len() {
        return false;
    }
    let mut i: usize = 0;
    while i < a.len()
        invariant
            i <= a.len() == b.len(),
            forall|j: int| 0 <= j < i ==> ascii_lower(a@[j]) == ascii_lower(b@[j]),
        decreases a.len() - i,
    {
        if ascii_lower_exec(a[i]) != ascii_lower_exec(b[i]) {
            return false;
        }
        i += 1;
    }
    true
}

/// The SHA-256 digest that a release asset promises, as 64 characters
/// after `sha256:`.
pub open spec fn promised_digest(d: Option<Seq<char>>) -> Option<Seq<char>> {
    match d {
        Some(v) => if starts_with(v, "sha256:"@) && utf8_len(v.subrange(7, v.len() as int))
            == 64 {
            Some(v.subrange(7, v.len() as int))
        } else {
            None
        },
        None => None,
    }
}

/// The digest text that the installer must match; `MissingDigest` when the
/// asset promises none.
pub fn expected_digest(asset: &ReleaseAsset) -> (r: Result<String, UpdateError>)
    ensures
        match (r, promised_digest(asset@.digest)) {
            (Ok(s), Some(d)) => s@ == d,
            (Err(e), None) => e == UpdateError::MissingDigest,
            _ => false,
        },
{
    match &asset.digest {
        None => Err(UpdateError::MissingDigest),
        Some(v) => {
            let c = chars_of(v.as_str());
            let prefix = chars_of("sha256:");
            proof {
                reveal_strlit("sha256:");
            }
            if !starts_with_exec(&c, &prefix) {
                return Err(UpdateError::MissingDigest);
            }
            let rest = slice(&c, 7, c.len());
            if rest.len() > 64 {
                proof {
                    lemma_utf8_len_ge(rest@);
                }
                return Err(UpdateError::MissingDigest);
            }
            if utf8_len_exec(&rest) != 64 {
                return Err(UpdateError::MissingDigest);
            }
            Ok(string_of(&rest))
        },
    }
}

/// Whether downloaded installer bytes have the expected SHA-256 digest; the
/// comparison ignores ASCII case.
pub fn installer_digest_matches(expected: &str, data: &[u8]) -> (r: bool)
    ensures
        r == eq_ignore_ascii_case(hex_lower(sha256(data@)), expected@),
{
    let digest = sha256_digest(data);
    let actual = hex_lower_exec(&digest);
    eq_ignore_ascii_case_exec(&actual, &chars_of(expected))
}

pub open spec fn trimmed(s: Option<String>) -> Option<Seq<char>> {
    match s {
        Some(v) => Some(trim(v@)),
        None => None,
    }
}

/// Whether the identity read from an extracted installer is the selected
/// release: the extraction succeeded and its trimmed `COMMIT` and `VERSION`
/// files name the expected commit and version.
pub fn identity_matches(
    identity: &Option<(Option<String>, Option<String>)>,
    commit: &str,
    version: &str,
) -> (r: bool)
    ensures
        r == match identity {
            Some((c, v)) => trimmed(*c) == Some(commit@) && trimmed(*v) == Some(version@),
            None => false,
        },
{
    match identity {
        None => false,
        Some((c, v)) => {
            let c_ok = match c {
                Some(c) => same(&trim_exec(&chars_of(c.as_str())), &chars_of(commit)),
                None => false,
            };
            let v_ok = match v {
                Some(v) => same(&trim_exec(&chars_of(v.as_str())), &chars_of(version)),
                None => false,
            };
            c_ok && v_ok
        },
    }
}

pub open spec fn is_hex(c: char) -> bool {
    ('0' <= c && c <= '9') || ('a' <= c && c <= 'f') || ('A' <= c && c <= 'F')
}

/// Whether a commit identifier is a full forty-digit hexadecimal SHA-1.
pub fn valid_commit(sha: &str) -> (r: bool)
    ensures
        r == (sha@.len() == 40 && forall|i: int| 0 <= i < 40 ==> is_hex(#[trigger] sha@[i])),
{
    let c = chars_of(sha);
    if c.len() != 40 {
        return false;
    }
    let mut i: usize = 0;
    while i < 40
        invariant
            i <= 40,
            c@ == sha@,
            c.len() == 40,
            forall|j: int| 0 <= j < i ==> is_hex(#[trigger] sha@[j]),
        decreases 40 - i,
    {
        let x = c[i];
        if !(('0' <= x && x <= '9') || ('a' <= x && x <= 'f') || ('A' <= x && x <= 'F')) {
            return false;
        }
        i += 1;
    }
    true
}

/// `s` with every trailing repetition of `p` removed, as
/// `str::trim_end_matches` does.
pub open spec fn trim_end_matches(s: Seq<char>, p: Seq<char>) -> Seq<char>
    decreases s.len(),
{
    if p.len() > 0 && crate::text::ends_with(s, p) {
        trim_end_matches(s.subrange(0, s.len() - p.len()), p)
    } else {
        s
    }
}

/// The commit lookup endpoint next to a releases endpoint.
pub fn commits_url(releases_url: &str) -> (r: String)
    ensures
        r@ == trim_end_matches(releases_url@, "/releases"@) + "/commits"@,
{
    let suffix = chars_of("/releases");
    let mut s = chars_of(releases_url);
    proof {
        reveal_strlit("/releases");
    }
    while crate::text::ends_with_exec(&s, &suffix)
        invariant
            suffix@ == "/releases"@,
            suffix@.len() == 9,
            trim_end_matches(releases_url@, "/releases"@) == trim_end_matches(s@, "/releases"@),
        decreases s.len(),
    {
        s = slice(&s, 0, s.len() - suffix.len());
    }
    crate::text::append(&mut s, &chars_of("/commits"));
    string_of(&s)
}

/// The message that explains a failed compatibility check: the installer's
/// trimmed error output, or a fixed text when it printed none.
pub fn target_error(stderr: &str) -> (e: UpdateError)
    ensures
        e matches UpdateError::Target(m) && (if trim(stderr@).len() == 0 {
            m@ == "target validation failed"@
        } else {
            m@ == trim(stderr@)
        }),
{
    let t = trim_exec(&chars_of(stderr));
    if t.len() == 0 {
        UpdateError::Target("target validation failed".to_owned())
    } else {
        UpdateError::Target(string_of(&t))
    }
}

/// Text joined with a separator between consecutive parts.
pub open spec fn join(parts: Seq<Seq<char>>, sep: char) -> Seq<char>
    decreases parts.len(),
{
    if parts.len() == 0 {
        Seq::<char>::empty()
    } else if parts.len() == 1 {
        parts[0]
    } else {
        join(parts.drop_last(), sep) + seq![sep] + parts.last()
    }
}

/// `str::lines` on characters.
pub fn lines_exec(s: &[char]) -> (r: Vec<Vec<char>>)
    ensures
        views(r@) == crate::text::lines(s@),
{
    if s.len() == 0 {
        return Vec::new();
    }
    let p = split_exec(s, '\n');
    let mut r: Vec<Vec<char>> = Vec::new();
    let mut i: usize = 0;
    let ghost body = views(p@).drop_last().map_values(|l: Seq<char>| crate::text::strip_cr(l));
    while i + 1 < p.len()
        invariant
            i < p.len(),
            body == views(p@).drop_last().map_values(|l: Seq<char>| crate::text::strip_cr(l)),
            views(r@) == body.take(i as int),
        decreases p.len() - i,
    {
        let l = &p[i];
        let cut = if l.len() > 0 && l[l.len() - 1] == '\r' {
            slice(l, 0, l.len() - 1)
        } else {
            slice(l, 0, l.len())
        };
        assert(cut@ == crate::text::strip_cr(l@)) by {
            if l@.len() > 0 && l@.last() == '\r' {
                assert(cut@ =~= l@.drop_last());
            } else {
                assert(cut@ =~= l@);
            }
        }
        let ghost before = r@;
        r.push(cut);
        assert(views(r@) =~= views(before).push(cut@));
        i += 1;
        assert(views(r@) =~= body.take(i as int));
    }
    assert(body.take(body.len() as int) =~= body);
    if s[s.len() - 1] != '\n' {
        let last = slice(&p[p.len() - 1], 0, p[p.len() - 1].len());
        assert(last@ =~= views(p@).last());
        let ghost before = r@;
        r.push(last);
        assert(views(r@) =~= views(before).push(last@));
    }
    r
}

pub open spec fn status_state(text: Seq<char>) -> Seq<char> {
    let l = crate::text::lines(text);
    if l.len() == 0 {
        "unknown"@
    } else {
        l[0]
    }
}

pub open spec fn status_message(text: Seq<char>) -> Seq<char> {
    let l = crate::text::lines(text);
    if l.len() == 0 {
        Seq::<char>::empty()
    } else {
        join(l.drop_first(), '\n')
    }
}

/// Reads an installer status file: its first line is the state (`unknown`
/// for an empty file), the remaining lines are the message.
pub fn install_status(text: &str) -> (s: InstallStatus)
    ensures
        s.state@ == status_state(text@),
        s.message@ == status_message(text@),
{
    let l = lines_exec(&chars_of(text));
    if l.len() == 0 {
        return InstallStatus { state: "unknown".to_owned(), message: String::new() };
    }
    let mut m: Vec<char> = Vec::new();
    let ghost rest = views(l@).drop_first();
    let mut i: usize = 1;
    assert(rest.take(0) =~= Seq::<Seq<char>>::empty());
    while i < l.len()
        invariant
            1 <= i <= l.len(),
            rest == views(l@).drop_first(),
            m@ == join(rest.take(i - 1), '\n'),
        decreases l.len() - i,
    {
        let ghost t = rest.take(i as int);
        assert(t.drop_last() =~= rest.take(i - 1));
        assert(t.last() == l@[i as int]@);
        if i > 1 {
            m.push('\n');
        }
        crate::text::append(&mut m, &l[i]);
        proof {
            if i == 1 {
                assert(m@ =~= t[0]);
            } else {
                assert(m@ =~= join(t.drop_last(), '\n') + seq!['\n'] + t.last());
            }
        }
        i += 1;
    }
    assert(rest.take(l.len() - 1) =~= rest);
    InstallStatus { state: string_of(&l[0]), message: string_of(&m) }
}

/// What reading an operation's status file gives: its state, its message,
/// and whether the file is then removed. A missing file reads as `unknown`
/// with no message; a file that reports a failure is removed once read.
pub open spec fn status_read(contents: Option<Seq<char>>) -> (Seq<char>, Seq<char>, bool) {
    match contents {
        Some(t) => (status_state(t), status_message(t), status_state(t) == "failed"@),
        None => ("unknown"@, Seq::<char>::empty(), false),
    }
}

/// The status of an operation from the contents of its status file, `None`
/// when there is no file, and whether the file is to be removed.
pub fn read_install_status(contents: Option<&str>) -> (r: (InstallStatus, bool))
    ensures
        (r.0.state@, r.0.message@, r.1) == status_read(match contents {
            Some(t) => Some(t@),
            None => None,
        }),
{
    match contents {
        Some(t) => {
            let status = install_status(t);
            let failed = install_failed(&status);
            (status, failed)
        },
        None => (InstallStatus { state: "unknown".to_owned(), message: String::new() }, false),
    }
}

/// An installation failure is reported once: the read that reports it
/// removes the status file, and a read after that reports `unknown`.
pub proof fn lemma_failure_reported_once(t: Seq<char>)
    requires
        status_read(Some(t)).0 == "failed"@,
    ensures
        status_read(Some(t)).2,
        status_read(None).0 == "unknown"@,
        status_read(None).0 != "failed"@,
{
    reveal_strlit("unknown");
    reveal_strlit("failed");
    assert("unknown"@[0] != "failed"@[0]);
}

/// Whether a status is a failure, which is reported once and then removed.
pub fn install_failed(status: &InstallStatus) -> (r: bool)
    ensures
        r == (status.state@ == "failed"@),
{
    same(&chars_of(status.state.as_str()), &chars_of("failed"))
}

fn concat(prefix: &str, s: &str) -> (r: String)
    ensures
        r@ == prefix@ + s@,
{
    let mut v = chars_of(prefix);
    crate::text::append(&mut v, &chars_of(s));
    string_of(&v)
}

impl UpdateError {
    /// The operator-facing text of the error.
    pub fn message(&self) -> (r: String)
        ensures
            r@ == match self {
                UpdateError::Version(e) => "Could not read the installed version: "@ + e@,
                UpdateError::Network(e) => "Could not contact GitHub: "@ + e@,
                UpdateError::Metadata => "GitHub returned invalid release metadata"@,
                UpdateError::Expired => "The selected update is no longer available; check again"@,
                UpdateError::MachineBusy => "The machine is no longer idle with the spindle stopped"@,
                UpdateError::MissingDigest => "The release installer has no SHA-256 digest"@,
                UpdateError::Digest => "The downloaded installer failed its SHA-256 check"@,
                UpdateError::Io(e) => "Could not prepare the update: "@ + e@,
                UpdateError::InvalidInstaller => "The downloaded installer is not valid"@,
                UpdateError::Target(e) => "The installer cannot run on this machine: "@ + e@,
                UpdateError::Launch(e) => "Could not start the installer: "@ + e@,
            },
    {
        match self {
            UpdateError::Version(e) => concat("Could not read the installed version: ", e.as_str()),
            UpdateError::Network(e) => concat("Could not contact GitHub: ", e.as_str()),
            UpdateError::Metadata => "GitHub returned invalid release metadata".to_owned(),
            UpdateError::Expired => "The selected update is no longer available; check again".to_owned(),
            UpdateError::MachineBusy => "The machine is no longer idle with the spindle stopped".to_owned(),
            UpdateError::MissingDigest => "The release installer has no SHA-256 digest".to_owned(),
            UpdateError::Digest => "The downloaded installer failed its SHA-256 check".to_owned(),
            UpdateError::Io(e) => concat("Could not prepare the update: ", e.as_str()),
            UpdateError::InvalidInstaller => "The downloaded installer is not valid".to_owned(),
            UpdateError::Target(e) => concat("The installer cannot run on this machine: ", e.as_str()),
            UpdateError::Launch(e) => concat("Could not start the installer: ", e.as_str()),
        }
    }
}

/// `uuid::Uuid::new_v4`, as hyphenated text: a random identifier.
#[verifier::external_body]
pub(crate) fn random_token() -> (r: String)
    ensures
        r@.len() == 36,
{
    uuid::Uuid::new_v4().to_string()
}

/// The canonical text of a UUID that `Uuid::parse_str` reads from `s`, or
/// `None` when it reads none.
pub uninterp spec fn uuid_text(s: Seq<char>) -> Option<Seq<char>>;

pub open spec fn opt_text(o: Option<String>) -> Option<Seq<char>> {
    match o {
        Some(t) => Some(t@),
        None => None,
    }
}

/// `uuid::Uuid::parse_str`, written back in its hyphenated form: the UUID
/// that the text names in any of the crate's formats (simple, hyphenated,
/// braced, URN), or `None`. The canonical text is 36 characters long.
#[verifier::external_body]
fn parse_uuid(s: &str) -> (r: Option<String>)
    ensures
        opt_text(r) == uuid_text(s@),
        r matches Some(t) ==> t@.len() == 36,
{
    uuid::Uuid::parse_str(s).ok().map(|u| u.to_string())
}

/// The name of the status file of an operation, given the canonical text of
/// its id as read: `pimprobe-update-<id>.status`; an id that names no UUID
/// has expired.
pub fn status_file_for(id: Option<String>) -> (r: Result<String, UpdateError>)
    ensures
        match id {
            None => r matches Err(UpdateError::Expired),
            Some(t) => r matches Ok(n) && n@ == "pimprobe-update-"@ + t@ + ".status"@,
        },
{
    match id {
        None => Err(UpdateError::Expired),
        Some(t) => {
            let mut v = chars_of("pimprobe-update-");
            crate::text::append(&mut v, &chars_of(t.as_str()));
            crate::text::append(&mut v, &chars_of(".status"));
            Ok(string_of(&v))
        },
    }
}

/// The name of the status file of operation `operation_id`, as
/// `status_file_for` gives it for the UUID that the id names.
pub fn status_file_name(operation_id: &str) -> (r: Result<String, UpdateError>)
    ensures
        match uuid_text(operation_id@) {
            None => r matches Err(UpdateError::Expired),
            Some(t) => r matches Ok(n) && n@ == "pimprobe-update-"@ + t + ".status"@,
        },
{
    status_file_for(parse_uuid(operation_id))
}

/// Release versions are ordered by year, then month, then sequence: a later
/// year is newer whatever the month and sequence, and within a year a later
/// month is newer whatever the sequence.
pub proof fn lemma_versions_order_by_year_first(a: (u32, u32, u32), b: (u32, u32, u32))
    ensures
        a.0 < b.0 ==> version_le(a, b) && !version_le(b, a),
        a.0 == b.0 && a.1 < b.1 ==> version_le(a, b) && !version_le(b, a),
        a.0 == b.0 && a.1 == b.1 ==> (version_le(a, b) <==> a.2 <= b.2),
{
}

/// The year of a calendar version.
pub open spec fn year(v: (u32, u32, u32)) -> u32 {
    v.0
}

/// A stable release of a later year than the installed stable version is
/// always offered: what is offered is at least as late a year.
pub proof fn lemma_later_year_is_offered(rs: Seq<ReleaseView>, current: Seq<char>, j: int)
    requires
        0 <= j < rs.len(),
        eligible_stable(rs[j]),
        stable_version(current) is Some,
        year(stable_version(rs[j].tag)->0) > year(stable_version(current)->0),
    ensures
        stable_choice(rs, current) matches Some(i) && 0 <= i < rs.len()
            && year(stable_version(rs[i].tag)->0) >= year(stable_version(rs[j].tag)->0),
{
    lemma_newest(rs);
    let i = newest_stable(rs)->0;
    let vi = stable_version(rs[i].tag)->0;
    let vj = stable_version(rs[j].tag)->0;
    let v = stable_version(current)->0;
    assert(version_le(vj, vi));
    lemma_versions_order_by_year_first(vi, vj);
    assert(vi.0 >= vj.0);
    lemma_versions_order_by_year_first(v, vi);
    assert(!version_le(vi, v));
}

} // verus!
