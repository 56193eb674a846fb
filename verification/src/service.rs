//! Text decisions of the service: command-line options, the USB drive that
//! logs are exported to, routine labels and feature selections.
use crate::probe::{Axis, InvalidConfig};
use crate::text::{
    append, chars_of, contains_char, lines, same, slice, starts_with, starts_with_exec, string_of,
    views, words, words_exec,
};
use vstd::prelude::*;

verus! {

// ---------------------------------------------------------------------------
// Export destination.
/// `s` with every occurrence of `pat` replaced by `rep`, scanning from the
/// left without overlaps, as `str::replace` does.
pub open spec fn replace(s: Seq<char>, pat: Seq<char>, rep: Seq<char>) -> Seq<char>
    decreases s.len(),
{
    if s.len() == 0 || pat.len() == 0 {
        s
    } else if starts_with(s, pat) {
        rep + replace(s.subrange(pat.len() as int, s.len() as int), pat, rep)
    } else {
        seq![s[0]] + replace(s.drop_first(), pat, rep)
    }
}

pub open spec fn escaped_space() -> Seq<char> {
    seq!['\\', '0', '4', '0']
}

pub open spec fn machine_mount() -> Seq<char> {
    "/mnt/udisk"@
}

/// The mount point of a `/proc/mounts` line, when it mounts a block device
/// on the machine's USB mount point or under `/run/media/`.
pub open spec fn usb_target(line: Seq<char>) -> Option<Seq<char>> {
    let f = words(line);
    if f.len() < 2 {
        None
    } else {
        let target = replace(f[1], escaped_space(), seq![' ']);
        if starts_with(f[0], "/dev/"@) && (target == machine_mount() || starts_with(
            target,
            "/run/media/"@,
        )) {
            Some(target)
        } else {
            None
        }
    }
}

/// The first mounted USB drive among `ls`, preferring the machine mount
/// point: `(first machine mount, first of any)` from index `k` on.
pub open spec fn usb_scan(ls: Seq<Seq<char>>, k: int) -> (Option<Seq<char>>, Option<Seq<char>>)
    decreases ls.len() - k,
{
    if k < 0 || k >= ls.len() {
        (None, None)
    } else {
        let rest = usb_scan(ls, k + 1);
        match usb_target(ls[k]) {
            Some(t) => (
                if t == machine_mount() {
                    Some(t)
                } else {
                    rest.0
                },
                Some(t),
            ),
            None => rest,
        }
    }
}

/// Where logs are exported: the machine's USB mount point when a block
/// device is mounted there, else the first block device under `/run/media/`.
pub open spec fn usb_mount_spec(mounts: Seq<char>) -> Option<Seq<char>> {
    let s = usb_scan(lines(mounts), 0);
    if s.0 is Some {
        s.0
    } else {
        s.1
    }
}

proof fn lemma_usb_scan(ls: Seq<Seq<char>>, k: int)
    requires
        0 <= k <= ls.len(),
    ensures
        usb_scan(ls, k).0 is Some ==> usb_scan(ls, k).0 == Some(machine_mount()),
        (exists|j: int| k <= j < ls.len() && #[trigger] usb_target(ls[j]) == Some(machine_mount()))
            ==> usb_scan(ls, k).0 is Some,
        usb_scan(ls, k).1 is None ==> usb_scan(ls, k).0 is None,
        forall|t: Seq<char>|
            usb_scan(ls, k).1 == Some(t) ==> exists|j: int|
                k <= j < ls.len() && #[trigger] usb_target(ls[j]) == Some(t),
    decreases ls.len() - k,
{
    if k < ls.len() {
        lemma_usb_scan(ls, k + 1);
        assert forall|t: Seq<char>| usb_scan(ls, k).1 == Some(t) implies exists|j: int|
            k <= j < ls.len() && #[trigger] usb_target(ls[j]) == Some(t) by {
            if usb_target(ls[k]) is None {
                let j = choose|j: int| k + 1 <= j < ls.len() && #[trigger] usb_target(ls[j]) == Some(t);
                assert(k <= j < ls.len() && usb_target(ls[j]) == Some(t));
            } else {
                assert(usb_target(ls[k]) == Some(t));
            }
        }
        if exists|j: int| k <= j < ls.len() && #[trigger] usb_target(ls[j]) == Some(machine_mount()) {
            let j = choose|j: int| k <= j < ls.len() && #[trigger] usb_target(ls[j]) == Some(machine_mount());
            if j > k {
                assert(k + 1 <= j < ls.len() && usb_target(ls[j]) == Some(machine_mount()));
            }
        }
    }
}

/// Logs go to the machine's USB mount point whenever a block device is
/// mounted there, and otherwise only ever to a mount point that holds a
/// block device.
pub proof fn lemma_usb_mount_prefers_the_machine_mount(mounts: Seq<char>)
    ensures
        (exists|j: int|
            0 <= j < lines(mounts).len() && #[trigger] usb_target(lines(mounts)[j]) == Some(
                machine_mount(),
            )) ==> usb_mount_spec(mounts) == Some(machine_mount()),
        forall|t: Seq<char>|
            usb_mount_spec(mounts) == Some(t) ==> exists|j: int|
                0 <= j < lines(mounts).len() && #[trigger] usb_target(lines(mounts)[j]) == Some(t),
{
    let ls = lines(mounts);
    lemma_usb_scan(ls, 0);
    lemma_usb_scan_finds_machine(ls, 0);
}

proof fn lemma_usb_scan_finds_machine(ls: Seq<Seq<char>>, k: int)
    requires
        0 <= k <= ls.len(),
    ensures
        usb_scan(ls, k).0 is Some ==> exists|j: int|
            k <= j < ls.len() && #[trigger] usb_target(ls[j]) == Some(machine_mount()),
    decreases ls.len() - k,
{
    if k < ls.len() {
        lemma_usb_scan_finds_machine(ls, k + 1);
        if usb_scan(ls, k).0 is Some && !(usb_target(ls[k]) == Some(machine_mount())) {
            let j = choose|j: int|
                k + 1 <= j < ls.len() && #[trigger] usb_target(ls[j]) == Some(machine_mount());
            assert(k <= j < ls.len());
        }
    }
}

proof fn lemma_replace_step(s: Seq<char>, i: int, pat: Seq<char>, rep: Seq<char>)
    requires
        0 <= i < s.len(),
        pat.len() > 0,
    ensures
        replace(s.subrange(i, s.len() as int), pat, rep) == if starts_with(
            s.subrange(i, s.len() as int),
            pat,
        ) {
            rep + replace(s.subrange(i + pat.len(), s.len() as int), pat, rep)
        } else {
            seq![s[i]] + replace(s.subrange(i + 1, s.len() as int), pat, rep)
        },
{
    let t = s.subrange(i, s.len() as int);
    assert(t[0] == s[i]);
    assert(t.drop_first() =~= s.subrange(i + 1, s.len() as int));
    if starts_with(t, pat) {
        assert(t.subrange(pat.len() as int, t.len() as int) =~= s.subrange(
            i + pat.len(),
            s.len() as int,
        ));
    }
}

/// `str::replace` of a nonempty pattern.
fn replace_exec(s: &[char], pat: &[char], rep: &[char]) -> (r: Vec<char>)
    requires
        pat.len() > 0,
    ensures
        r@ == replace(s@, pat@, rep@),
{
    let mut out: Vec<char> = Vec::new();
    let mut i: usize = 0;
    assert(s@.subrange(0, s@.len() as int) =~= s@);
    while i < s.len()
        invariant
            i <= s.len(),
            pat.len() > 0,
            replace(s@, pat@, rep@) == out@ + replace(
                s@.subrange(i as int, s@.len() as int),
                pat@,
                rep@,
            ),
        decreases s.len() - i,
    {
        proof {
            lemma_replace_step(s@, i as int, pat@, rep@);
        }
        let rest = slice(s, i, s.len());
        if starts_with_exec(&rest, pat) {
            let ghost before = out@;
            append(&mut out, rep);
            assert(before + (rep@ + replace(s@.subrange(i + pat.len(), s@.len() as int), pat@, rep@))
                =~= out@ + replace(s@.subrange(i + pat.len(), s@.len() as int), pat@, rep@));
            i += pat.len();
        } else {
            let ghost before = out@;
            out.push(s[i]);
            assert(before + (seq![s@[i as int]] + replace(s@.subrange(i + 1, s@.len() as int), pat@, rep@))
                =~= out@ + replace(s@.subrange(i + 1, s@.len() as int), pat@, rep@));
            i += 1;
        }
    }
    assert(replace(s@.subrange(s@.len() as int, s@.len() as int), pat@, rep@) =~= Seq::<
        char,
    >::empty());
    assert(out@ + Seq::<char>::empty() =~= out@);
    out
}

fn usb_target_exec(line: &[char]) -> (r: Option<Vec<char>>)
    ensures
        crate::text::opt_chars(r) == usb_target(line@),
{
    let f = words_exec(line);
    if f.len() < 2 {
        return None;
    }
    let esc = vec!['\\', '0', '4', '0'];
    assert(esc@ =~= escaped_space());
    let sp = vec![' '];
    assert(sp@ =~= seq![' ']);
    let target = replace_exec(&f[1], &esc, &sp);
    let ok = starts_with_exec(&f[0], &chars_of("/dev/")) && (same(&target, &chars_of("/mnt/udisk"))
        || starts_with_exec(&target, &chars_of("/run/media/")));
    if ok {
        Some(target)
    } else {
        None
    }
}

/// Where to export logs, read from the text of `/proc/mounts`: a block
/// device mounted on `/mnt/udisk`, else the first one mounted under
/// `/run/media/`.
pub fn usb_mount(mounts: &str) -> (r: Option<String>)
    ensures
        match (r, usb_mount_spec(mounts@)) {
            (Some(p), Some(q)) => p@ == q,
            (None, None) => true,
            _ => false,
        },
{
    let ls = crate::updates::lines_exec(&chars_of(mounts));
    let ghost all = views(ls@);
    let mut first: Option<Vec<char>> = None;
    let mut machine: Option<Vec<char>> = None;
    let mut i: usize = ls.len();
    while i > 0
        invariant
            i <= ls.len(),
            all == views(ls@),
            all.len() == ls.len(),
            crate::text::opt_chars(machine) == usb_scan(all, i as int).0,
            crate::text::opt_chars(first) == usb_scan(all, i as int).1,
        decreases i,
    {
        i -= 1;
        assert(all[i as int] == ls@[i as int]@);
        match usb_target_exec(&ls[i]) {
            Some(t) => {
                let is_machine = same(&t, &chars_of("/mnt/udisk"));
                if is_machine {
                    machine = Some(slice(&t, 0, t.len()));
                }
                first = Some(t);
            },
            None => {},
        }
    }
    match machine {
        Some(m) => Some(string_of(&m)),
        None => match first {
            Some(f) => Some(string_of(&f)),
            None => None,
        },
    }
}

// ---------------------------------------------------------------------------
// G-code text.
/// `s` without trailing copies of `c`, as `str::trim_end_matches` with a
/// character does.
pub open spec fn trim_end_char(s: Seq<char>, c: char) -> Seq<char>
    decreases s.len(),
{
    if s.len() > 0 && s.last() == c {
        trim_end_char(s.drop_last(), c)
    } else {
        s
    }
}

/// A word with a decimal point loses trailing zeros, then a trailing point.
pub open spec fn trim_word(w: Seq<char>) -> Seq<char> {
    if w.contains('.') {
        trim_end_char(trim_end_char(w, '0'), '.')
    } else {
        w
    }
}

/// Words joined by single spaces.
pub open spec fn join_words(w: Seq<Seq<char>>) -> Seq<char>
    decreases w.len(),
{
    if w.len() == 0 {
        Seq::<char>::empty()
    } else if w.len() == 1 {
        w[0]
    } else {
        join_words(w.drop_last()) + seq![' '] + w.last()
    }
}

/// The compact form of a G-code command that scripts show.
pub open spec fn trim_command_spec(s: Seq<char>) -> Seq<char> {
    join_words(words(s).map_values(|w: Seq<char>| trim_word(w)))
}

fn trim_end_char_exec(s: &[char], c: char) -> (r: Vec<char>)
    ensures
        r@ == trim_end_char(s@, c),
{
    let mut n = s.len();
    assert(s@.subrange(0, n as int) =~= s@);
    while n > 0 && s[n - 1] == c
        invariant
            n <= s.len(),
            trim_end_char(s@, c) == trim_end_char(s@.subrange(0, n as int), c),
        decreases n,
    {
        assert(s@.subrange(0, n as int).drop_last() =~= s@.subrange(0, n - 1));
        n -= 1;
    }
    slice(s, 0, n)
}

/// Drops trailing zeros after a decimal point and a bare trailing point from
/// every word, and separates the words by single spaces: `G38.3 X-20.000`
/// becomes `G38.3 X-20`.
pub fn trim_command(s: &str) -> (r: String)
    ensures
        r@ == trim_command_spec(s@),
{
    let w = words_exec(&chars_of(s));
    let ghost tw = views(w@).map_values(|x: Seq<char>| trim_word(x));
    let mut out: Vec<char> = Vec::new();
    let mut i: usize = 0;
    assert(tw.take(0) =~= Seq::<Seq<char>>::empty());
    while i < w.len()
        invariant
            i <= w.len(),
            tw == views(w@).map_values(|x: Seq<char>| trim_word(x)),
            tw.len() == w.len(),
            out@ == join_words(tw.take(i as int)),
        decreases w.len() - i,
    {
        let x = &w[i];
        let t = if contains_char(x, '.') {
            trim_end_char_exec(&trim_end_char_exec(x, '0'), '.')
        } else {
            slice(x, 0, x.len())
        };
        assert(t@ == tw[i as int]) by {
            assert(tw[i as int] == trim_word(w@[i as int]@));
            if !x@.contains('.') {
                assert(t@ =~= x@);
            }
        }
        let ghost before = out@;
        if i > 0 {
            out.push(' ');
        }
        append(&mut out, &t);
        let ghost nt = tw.take(i + 1);
        assert(nt.drop_last() =~= tw.take(i as int));
        proof {
            if i == 0 {
                assert(out@ =~= nt[0]);
            } else {
                assert(out@ =~= join_words(nt.drop_last()) + seq![' '] + nt.last());
            }
        }
        i += 1;
    }
    assert(tw.take(w.len() as int) =~= tw);
    string_of(&out)
}

// ---------------------------------------------------------------------------
// Routines.
pub open spec fn is_family(f: Seq<char>) -> bool {
    f == "inside"@ || f == "outside"@ || f == "center"@
}

/// The axes that a center feature measures, and whether it is a Z surface.
pub open spec fn center_selection(feature: Seq<char>) -> Option<(i32, i32, bool)> {
    if feature == "boss"@ || feature == "block"@ || feature == "hole"@ || feature == "pocket"@ {
        Some((1, 1, false))
    } else if feature == "x-ridge"@ || feature == "x-valley"@ {
        Some((1, 0, false))
    } else if feature == "y-ridge"@ || feature == "y-valley"@ {
        Some((0, 1, false))
    } else if feature == "z"@ {
        Some((0, 0, true))
    } else {
        None
    }
}

/// Why a feature selection is refused, if it is; the numeric settings of a
/// routine are checked separately.
pub open spec fn selection_error(
    family: Seq<char>,
    feature: Seq<char>,
    x: i32,
    y: i32,
    z: bool,
    wcs: i32,
) -> Option<Seq<char>> {
    if !is_family(family) || !(-1 <= x <= 1) || !(-1 <= y <= 1) || z == (x != 0 || y != 0) {
        Some("invalid feature selection"@)
    } else if !(54 <= wcs <= 59) {
        Some("invalid WCS"@)
    } else if family == "center"@ {
        match center_selection(feature) {
            None => Some("unknown center feature"@),
            Some(e) => if (x, y, z) != e {
                Some("invalid center selection"@)
            } else {
                None
            },
        }
    } else {
        None
    }
}

fn is(s: &str, lit: &str) -> (r: bool)
    ensures
        r == (s@ == lit@),
{
    same(&chars_of(s), &chars_of(lit))
}

fn invalid(message: &str) -> (e: InvalidConfig)
    ensures
        e.message@ == message@,
{
    InvalidConfig { message: message.to_owned() }
}

/// Checks which feature a routine probes: an inside, outside or center
/// family, X and Y directions in -1..=1 with Z exactly when neither is set,
/// a G54..G59 coordinate system, and for a center routine a known feature
/// with its own axes.
pub fn validate_selection(family: &str, feature: &str, x: i32, y: i32, z: bool, wcs: i32) -> (r:
    Result<(), InvalidConfig>)
    ensures
        match (r, selection_error(family@, feature@, x, y, z, wcs)) {
            (Ok(()), None) => true,
            (Err(e), Some(m)) => e.message@ == m,
            _ => false,
        },
{
    let family_ok = is(family, "inside") || is(family, "outside") || is(family, "center");
    if !family_ok || !(-1 <= x && x <= 1) || !(-1 <= y && y <= 1) || z == (x != 0 || y != 0) {
        return Err(invalid("invalid feature selection"));
    }
    if !(54 <= wcs && wcs <= 59) {
        return Err(invalid("invalid WCS"));
    }
    if is(family, "center") {
        let expected: (i32, i32, bool) = if is(feature, "boss") || is(feature, "block") || is(
            feature,
            "hole",
        ) || is(feature, "pocket") {
            (1, 1, false)
        } else if is(feature, "x-ridge") || is(feature, "x-valley") {
            (1, 0, false)
        } else if is(feature, "y-ridge") || is(feature, "y-valley") {
            (0, 1, false)
        } else if is(feature, "z") {
            (0, 0, true)
        } else {
            return Err(invalid("unknown center feature"));
        };
        if x != expected.0 || y != expected.1 || z != expected.2 {
            return Err(invalid("invalid center selection"));
        }
    }
    Ok(())
}

/// The axes that a routine measures, in order.
pub open spec fn axes_spec(x: i32, y: i32, z: bool) -> Seq<Axis> {
    if z {
        seq![Axis::Z]
    } else {
        (if x != 0 {
            seq![Axis::X]
        } else {
            Seq::<Axis>::empty()
        }) + (if y != 0 {
            seq![Axis::Y]
        } else {
            Seq::<Axis>::empty()
        })
    }
}

/// The axes that a routine measures: Z for a surface, otherwise X and Y
/// where their direction is set, in that order.
pub fn routine_axes(x: i32, y: i32, z: bool) -> (r: Vec<Axis>)
    ensures
        r@ == axes_spec(x, y, z),
{
    let mut r: Vec<Axis> = Vec::new();
    if z {
        r.push(Axis::Z);
    } else {
        if x != 0 {
            r.push(Axis::X);
        }
        if y != 0 {
            r.push(Axis::Y);
        }
    }
    assert(r@ =~= axes_spec(x, y, z));
    r
}

/// Whether a center feature is measured from inside: a hole, a pocket or a
/// valley.
pub fn center_internal(feature: &str) -> (r: bool)
    ensures
        r == (feature@ == "hole"@ || feature@ == "pocket"@ || feature@ == "x-valley"@ || feature@
            == "y-valley"@),
{
    is(feature, "hole") || is(feature, "pocket") || is(feature, "x-valley") || is(
        feature,
        "y-valley",
    )
}

pub open spec fn sign(v: i32) -> Seq<char> {
    if v > 0 {
        seq!['+']
    } else {
        seq!['-']
    }
}

/// The operator's name of a routine, as the probing history shows it.
pub open spec fn routine_label_spec(family: Seq<char>, feature: Seq<char>, x: i32, y: i32, z: bool) -> Seq<
    char,
> {
    if z {
        "Z surface"@
    } else if family == "center"@ {
        replace(feature, seq!['-'], seq![' ']) + " center"@
    } else {
        let part = if x == 0 {
            seq!['Y'] + sign(y) + " edge"@
        } else if y == 0 {
            seq!['X'] + sign(x) + " edge"@
        } else {
            seq!['X'] + sign(x) + seq!['/', 'Y'] + sign(y) + " corner"@
        };
        (if family == "inside"@ {
            "Inside "@
        } else {
            "Outside "@
        }) + part
    }
}

fn sign_exec(v: i32) -> (c: char)
    ensures
        seq![c] == sign(v),
{
    if v > 0 {
        '+'
    } else {
        '-'
    }
}

/// Names a routine for the probing history, as in `Outside X+/Y- corner`,
/// `hole center` or `Z surface`.
pub fn routine_label(family: &str, feature: &str, x: i32, y: i32, z: bool) -> (r: String)
    ensures
        r@ == routine_label_spec(family@, feature@, x, y, z),
{
    if z {
        return "Z surface".to_owned();
    }
    if is(family, "center") {
        let dash = vec!['-'];
        let space = vec![' '];
        assert(dash@ =~= seq!['-']);
        assert(space@ =~= seq![' ']);
        let mut v = replace_exec(&chars_of(feature), &dash, &space);
        append(&mut v, &chars_of(" center"));
        return string_of(&v);
    }
    let mut part: Vec<char> = Vec::new();
    if x == 0 {
        part.push('Y');
        part.push(sign_exec(y));
        append(&mut part, &chars_of(" edge"));
    } else if y == 0 {
        part.push('X');
        part.push(sign_exec(x));
        append(&mut part, &chars_of(" edge"));
    } else {
        part.push('X');
        part.push(sign_exec(x));
        part.push('/');
        part.push('Y');
        part.push(sign_exec(y));
        append(&mut part, &chars_of(" corner"));
    }
    let mut v = if is(family, "inside") {
        chars_of("Inside ")
    } else {
        chars_of("Outside ")
    };
    append(&mut v, &part);
    proof {
        if x == 0 {
            assert(part@ =~= seq!['Y'] + sign(y) + " edge"@);
        } else if y == 0 {
            assert(part@ =~= seq!['X'] + sign(x) + " edge"@);
        } else {
            assert(part@ =~= seq!['X'] + sign(x) + seq!['/', 'Y'] + sign(y) + " corner"@);
        }
    }
    string_of(&v)
}

// ---------------------------------------------------------------------------
// Command line.
/// The options given on the command line; paths and addresses are checked
/// where they are used.
#[derive(Debug, Clone)]
pub struct Arguments {
    pub config: Option<String>,
    pub listen: Option<String>,
    pub settings: Option<String>,
    pub mock: bool,
    pub ready_token: String,
}

pub struct ArgumentsView {
    pub config: Option<Seq<char>>,
    pub listen: Option<Seq<char>>,
    pub settings: Option<Seq<char>>,
    pub mock: bool,
    pub ready_token: Seq<char>,
}

impl View for Arguments {
    type V = ArgumentsView;

    open spec fn view(&self) -> ArgumentsView {
        ArgumentsView {
            config: crate::parser::opt_string(self.config),
            listen: crate::parser::opt_string(self.listen),
            settings: crate::parser::opt_string(self.settings),
            mock: self.mock,
            ready_token: self.ready_token@,
        }
    }
}

/// Reading the arguments from index `i` on: `--mock` stands alone, every
/// other option takes the next argument as its value.
pub open spec fn scan_arguments(args: Seq<Seq<char>>, i: int, a: ArgumentsView) -> Result<
    ArgumentsView,
    Seq<char>,
>
    decreases args.len() - i,
{
    if i < 0 || i >= args.len() {
        Ok(a)
    } else if args[i] == "--mock"@ {
        scan_arguments(args, i + 1, ArgumentsView { mock: true, ..a })
    } else if i + 1 >= args.len() {
        Err("missing value for "@ + args[i])
    } else {
        let v = args[i + 1];
        if args[i] == "--config"@ {
            scan_arguments(args, i + 2, ArgumentsView { config: Some(v), ..a })
        } else if args[i] == "--listen"@ {
            scan_arguments(args, i + 2, ArgumentsView { listen: Some(v), ..a })
        } else if args[i] == "--settings"@ {
            scan_arguments(args, i + 2, ArgumentsView { settings: Some(v), ..a })
        } else if args[i] == "--ready-token"@ {
            scan_arguments(args, i + 2, ArgumentsView { ready_token: v, ..a })
        } else {
            Err("unknown option "@ + args[i])
        }
    }
}

pub open spec fn default_arguments() -> ArgumentsView {
    ArgumentsView { config: None, listen: None, settings: None, mock: false, ready_token: "manual"@ }
}

pub open spec fn arg_views(args: Seq<String>) -> Seq<Seq<char>> {
    args.map_values(|s: String| s@)
}

fn prefixed(prefix: &str, s: &String) -> (r: String)
    ensures
        r@ == prefix@ + s@,
{
    let mut v = chars_of(prefix);
    append(&mut v, &chars_of(s.as_str()));
    string_of(&v)
}

/// Reads the service's command line: `--mock`, and `--config`, `--listen`,
/// `--settings` and `--ready-token` each with a value; the ready token
/// defaults to `manual`.
pub fn parse_arguments(args: &Vec<String>) -> (r: Result<Arguments, String>)
    ensures
        match (r, scan_arguments(arg_views(args@), 0, default_arguments())) {
            (Ok(a), Ok(b)) => a@ == b,
            (Err(e), Err(f)) => e@ == f,
            _ => false,
        },
{
    let ghost av = arg_views(args@);
    let mut a = Arguments {
        config: None,
        listen: None,
        settings: None,
        mock: false,
        ready_token: "manual".to_owned(),
    };
    let mut i: usize = 0;
    while i < args.len()
        invariant
            i <= args.len(),
            av == arg_views(args@),
            av.len() == args.len(),
            scan_arguments(av, 0, default_arguments()) == scan_arguments(av, i as int, a@),
        decreases args.len() - i,
    {
        let arg = &args[i];
        assert(av[i as int] == arg@);
        if is(arg.as_str(), "--mock") {
            a.mock = true;
            i += 1;
        } else if i + 1 >= args.len() {
            return Err(prefixed("missing value for ", arg));
        } else {
            let value = args[i + 1].clone();
            assert(av[i + 1] == value@);
            if is(arg.as_str(), "--config") {
                a.config = Some(value);
            } else if is(arg.as_str(), "--listen") {
                a.listen = Some(value);
            } else if is(arg.as_str(), "--settings") {
                a.settings = Some(value);
            } else if is(arg.as_str(), "--ready-token") {
                a.ready_token = value;
            } else {
                return Err(prefixed("unknown option ", arg));
            }
            i += 2;
        }
    }
    Ok(a)
}

// ---------------------------------------------------------------------------
// Exclusive actions.
/// Whether a machine action may start.
#[derive(Debug, Clone, Copy, PartialEq, Eq, Structural)]
pub enum Admission {
    Admitted,
    /// The service is stopping.
    ShuttingDown,
    /// Another action holds the machine.
    Busy,
    /// A stop after a failure has not been confirmed yet.
    AwaitingRecovery,
}

/// Admits an action only while the service runs, no other action holds the
/// machine and no unconfirmed stop is outstanding, checked in that order.
pub fn admission(shutting_down: bool, lock_acquired: bool, recovery_failed: bool) -> (r: Admission)
    ensures
        r == if shutting_down {
            Admission::ShuttingDown
        } else if !lock_acquired {
            Admission::Busy
        } else if recovery_failed {
            Admission::AwaitingRecovery
        } else {
            Admission::Admitted
        },
{
    if shutting_down {
        Admission::ShuttingDown
    } else if !lock_acquired {
        Admission::Busy
    } else if recovery_failed {
        Admission::AwaitingRecovery
    } else {
        Admission::Admitted
    }
}

/// A positioning action on the completed result of a routine.
#[derive(Debug, Clone, Copy, PartialEq, Eq, Structural)]
pub enum FollowUp {
    /// The return to the routine's starting point.
    Return,
    /// The move to the measured point.
    Measured,
}

/// Whether a positioning action on a completed result was already done, and
/// is refused: a return once the result has returned, a move to the
/// measured point once it has been positioned there.
pub fn follow_up_done(action: FollowUp, returned: bool, positioned: bool) -> (r: bool)
    ensures
        r == match action {
            FollowUp::Return => returned,
            FollowUp::Measured => positioned,
        },
{
    match action {
        FollowUp::Return => returned,
        FollowUp::Measured => positioned,
    }
}

/// Whether the parser modes of a routine are restored after a failed move
/// to its measured point: when the controller is connected, ready and not
/// blocking motion, and its modes differ from those the routine started in.
pub fn restore_modes_after_failure(
    measured: bool,
    connected: bool,
    ready: bool,
    motion_blocked: bool,
    modes_differ: bool,
) -> (r: bool)
    ensures
        r == (measured && connected && ready && !motion_blocked && modes_differ),
{
    measured && connected && ready && !motion_blocked && modes_differ
}

/// A center selection is accepted exactly when its axes are those of its
/// feature: X and Y for a boss, block, hole or pocket; X alone for an X
/// ridge or valley; Y alone for a Y ridge or valley; Z alone for a Z
/// surface.
pub proof fn lemma_center_selection_matches_feature(feature: Seq<char>, x: i32, y: i32, z: bool, wcs: i32)
    requires
        54 <= wcs <= 59,
    ensures
        (feature == "boss"@ || feature == "block"@ || feature == "hole"@ || feature == "pocket"@)
            ==> (selection_error("center"@, feature, x, y, z, wcs) is None <==> (x == 1 && y == 1
            && !z)),
        (feature == "x-ridge"@ || feature == "x-valley"@) ==> (selection_error(
            "center"@,
            feature,
            x,
            y,
            z,
            wcs,
        ) is None <==> (x == 1 && y == 0 && !z)),
        (feature == "y-ridge"@ || feature == "y-valley"@) ==> (selection_error(
            "center"@,
            feature,
            x,
            y,
            z,
            wcs,
        ) is None <==> (x == 0 && y == 1 && !z)),
        feature == "z"@ ==> (selection_error("center"@, feature, x, y, z, wcs) is None <==> (x == 0
            && y == 0 && z)),
        !(feature == "boss"@ || feature == "block"@ || feature == "hole"@ || feature == "pocket"@
            || feature == "x-ridge"@ || feature == "x-valley"@ || feature == "y-ridge"@ || feature
            == "y-valley"@ || feature == "z"@) ==> selection_error("center"@, feature, x, y, z, wcs)
            is Some,
{
    reveal_strlit("center");
    reveal_strlit("inside");
    reveal_strlit("outside");
    reveal_strlit("boss");
    reveal_strlit("block");
    reveal_strlit("hole");
    reveal_strlit("pocket");
    reveal_strlit("x-ridge");
    reveal_strlit("x-valley");
    reveal_strlit("y-ridge");
    reveal_strlit("y-valley");
    reveal_strlit("z");
    assert(is_family("center"@));
    if feature == "y-ridge"@ || feature == "y-valley"@ {
        assert(feature[0] == 'y');
        assert(feature != "boss"@ && feature != "block"@ && feature != "hole"@ && feature
            != "pocket"@);
        assert(feature != "x-ridge"@ && feature != "x-valley"@);
    }
    if feature == "x-ridge"@ || feature == "x-valley"@ {
        assert(feature[0] == 'x');
        assert(feature != "boss"@ && feature != "block"@ && feature != "hole"@ && feature
            != "pocket"@);
    }
    if feature == "z"@ {
        assert(feature.len() == 1);
        assert(feature != "boss"@ && feature != "block"@ && feature != "hole"@ && feature
            != "pocket"@);
        assert(feature != "x-ridge"@ && feature != "x-valley"@);
        assert(feature != "y-ridge"@ && feature != "y-valley"@);
    }
}

} // verus!
