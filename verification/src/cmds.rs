//! Decisions behind the desktop commands: renaming the device, and cleaning
//! the environment of the program that opens a path.

use vstd::prelude::*;
use crate::text::{
    chars_of, join_with, lemma_split_on_step, literal, range_starts_with,
    split_on, starts_with, string_from_chars, trim, trim_bounds,
};

verus! {

/// The new device name for what the user typed: the text trimmed, or
/// `None` (the name is left as it is) when nothing but white space remains.
pub fn device_name_update(name: &str) -> (r: Option<String>)
    ensures
        trim(name@).len() == 0 ==> r is None,
        trim(name@).len() > 0 ==> (r matches Some(s) && s@ == trim(name@)),
{
    let cs = chars_of(name);
    let (a, b) = trim_bounds(&cs, 0, cs.len());
    assert(cs@.subrange(0, cs@.len() as int) =~= cs@);
    if a == b {
        return None;
    }
    let mut v: Vec<char> = Vec::new();
    let mut k: usize = a;
    while k < b
        invariant
            a <= k <= b <= cs@.len(),
            v@ == cs@.subrange(a as int, k as int),
        decreases b - k,
    {
        v.push(cs[k]);
        k = k + 1;
        assert(cs@.subrange(a as int, k as int) =~= cs@.subrange(a as int, k - 1).push(cs@[k - 1]));
    }
    Some(string_from_chars(v))
}

/// A data directory that stays on the search path: a non-empty entry that
/// is not inside the application image `appdir`.
pub open spec fn keeps_data_dir(dir: Seq<char>, appdir: Seq<char>) -> bool {
    dir.len() > 0 && !starts_with(dir, appdir)
}

/// The entries among `dirs` that stay, in order.
pub open spec fn kept_data_dirs(dirs: Seq<Seq<char>>, appdir: Seq<char>) -> Seq<Seq<char>>
    decreases dirs.len(),
{
    if dirs.len() == 0 {
        Seq::empty()
    } else {
        let r = kept_data_dirs(dirs.drop_last(), appdir);
        if keeps_data_dir(dirs.last(), appdir) {
            r.push(dirs.last())
        } else {
            r
        }
    }
}

/// The system data directories used when no entry stays.
pub open spec fn default_data_dirs() -> Seq<char> {
    "/usr/local/share:/usr/share"@
}

/// `XDG_DATA_DIRS` for the opener: the entries of the application image
/// are taken out (their share dirs would shadow the system's), empty
/// entries are dropped, and the system default is used when nothing stays.
pub open spec fn spec_clean_xdg_data_dirs(xdg: Seq<char>, appdir: Seq<char>) -> Seq<char> {
    let kept = join_with(kept_data_dirs(split_on(xdg, ':'), appdir), ':');
    if kept.len() == 0 {
        default_data_dirs()
    } else {
        kept
    }
}

proof fn lemma_join_push(parts: Seq<Seq<char>>, x: Seq<char>, sep: char)
    ensures
        join_with(parts.push(x), sep) == if parts.len() == 0 {
            x
        } else {
            join_with(parts, sep).push(sep) + x
        },
{
    assert(parts.push(x).drop_last() =~= parts);
    if parts.len() == 0 {
        assert(parts.push(x)[0] == x);
    }
}

/// Appends `cs[start..end]` to the joined kept entries when it stays.
fn append_if_kept(
    out: &mut Vec<char>,
    kept: &mut usize,
    cs: &Vec<char>,
    start: usize,
    end: usize,
    ad: &Vec<char>,
    Ghost(before): Ghost<Seq<Seq<char>>>,
)
    requires
        start <= end <= cs@.len(),
        old(out)@ == join_with(before, ':'),
        *old(kept) == before.len(),
        before.len() <= start,
    ensures
        ({
            let piece = cs@.subrange(start as int, end as int);
            let after = if keeps_data_dir(piece, ad@) {
                before.push(piece)
            } else {
                before
            };
            &&& final(out)@ == join_with(after, ':')
            &&& *final(kept) == after.len()
            &&& after.len() <= end
        }),
{
    let ghost piece = cs@.subrange(start as int, end as int);
    let keep = start < end && !range_starts_with(cs, start, end, ad);
    if keep {
        if *kept > 0 {
            out.push(':');
        }
        let mut k: usize = start;
        let ghost o0 = out@;
        while k < end
            invariant
                start <= k <= end <= cs@.len(),
                out@ == o0 + cs@.subrange(start as int, k as int),
            decreases end - k,
        {
            out.push(cs[k]);
            k = k + 1;
            assert(cs@.subrange(start as int, k as int) =~= cs@.subrange(start as int, k - 1).push(
                cs@[k - 1],
            ));
        }
        proof {
            lemma_join_push(before, piece, ':');
        }
        *kept = *kept + 1;
    }
}

/// `XDG_DATA_DIRS` with the application image's entries taken out.
pub fn clean_xdg_data_dirs(xdg: &str, appdir: &str) -> (r: String)
    ensures
        r@ == spec_clean_xdg_data_dirs(xdg@, appdir@),
{
    let cs = chars_of(xdg);
    let ad = chars_of(appdir);
    let ghost s = cs@;
    let mut out: Vec<char> = Vec::new();
    let mut kept: usize = 0;
    let mut start: usize = 0;
    let mut i: usize = 0;
    assert(s.take(0) =~= Seq::<char>::empty());
    assert(seq![Seq::<char>::empty()].drop_last() =~= Seq::<Seq<char>>::empty());
    while i < cs.len()
        invariant
            start <= i <= s.len(),
            cs@ == s,
            ad@ == appdir@,
            split_on(s.take(i as int), ':').len() >= 1,
            split_on(s.take(i as int), ':').last() == s.subrange(start as int, i as int),
            out@ == join_with(
                kept_data_dirs(split_on(s.take(i as int), ':').drop_last(), appdir@),
                ':',
            ),
            kept == kept_data_dirs(split_on(s.take(i as int), ':').drop_last(), appdir@).len(),
            kept <= start,
        decreases s.len() - i,
    {
        proof {
            lemma_split_on_step(s, i as int, start as int, ':');
        }
        if cs[i] == ':' {
            let ghost p = split_on(s.take(i as int), ':');
            let ghost piece = s.subrange(start as int, i as int);
            let ghost before = kept_data_dirs(p.drop_last(), appdir@);
            append_if_kept(&mut out, &mut kept, &cs, start, i, &ad, Ghost(before));
            proof {
                assert(p =~= p.drop_last().push(piece));
                assert(split_on(s.take(i + 1), ':').drop_last() =~= p);
                assert(s.subrange(i + 1, i + 1) =~= Seq::<char>::empty());
            }
            start = i + 1;
        }
        i = i + 1;
    }
    assert(s.take(s.len() as int) =~= s);
    let ghost p = split_on(s, ':');
    let ghost before = kept_data_dirs(p.drop_last(), appdir@);
    append_if_kept(&mut out, &mut kept, &cs, start, cs.len(), &ad, Ghost(before));
    assert(p =~= p.drop_last().push(s.subrange(start as int, s.len() as int)));
    if out.len() == 0 {
        return literal("/usr/local/share:/usr/share");
    }
    string_from_chars(out)
}

/// A program, with its arguments, that opens a path with the system handler.
#[derive(Debug, Clone)]
pub struct OpenCommand {
    pub program: String,
    pub args: Vec<String>,
}

/// The texts of a run of strings.
pub open spec fn texts(v: Seq<String>) -> Seq<Seq<char>> {
    v.map_values(|s: String| s@)
}

/// The openers for `path`, in the order they are tried: `xdg-open <path>`,
/// then `gio open <path>`.
pub fn open_commands(path: &str) -> (cmds: Vec<OpenCommand>)
    ensures
        cmds@.len() == 2,
        cmds@[0].program@ == "xdg-open"@,
        texts(cmds@[0].args@) == seq![path@],
        cmds@[1].program@ == "gio"@,
        texts(cmds@[1].args@) == seq!["open"@, path@],
{
    let mut xdg_args: Vec<String> = Vec::new();
    xdg_args.push(literal(path));
    let mut gio_args: Vec<String> = Vec::new();
    gio_args.push(literal("open"));
    gio_args.push(literal(path));
    assert(texts(xdg_args@) =~= seq![path@]);
    assert(texts(gio_args@) =~= seq!["open"@, path@]);
    let mut cmds: Vec<OpenCommand> = Vec::new();
    cmds.push(OpenCommand { program: literal("xdg-open"), args: xdg_args });
    cmds.push(OpenCommand { program: literal("gio"), args: gio_args });
    cmds
}

} // verus!
