//! Where to look for an application's icon: the candidate files, best first.
//!
//! Scalable SVG icons come first, then PNG icons from the largest size down,
//! then XPM pixmaps; the caller takes the first candidate that exists.

use crate::text::{concat, copy_str, first_segment, push_char, to_chars, views};
use vstd::prelude::*;
use vstd::string::StringExecFns;

verus! {

// ---------------------------------------------------------------------------
// Paths
// ---------------------------------------------------------------------------

/// `base` joined with `part` (`PathBuf::join` on Unix): an absolute `part`
/// replaces `base`; otherwise a `/` separates them unless `base` is empty or
/// already ends with one.
pub open spec fn path_join(base: Seq<char>, part: Seq<char>) -> Seq<char> {
    if part.len() > 0 && part[0] == '/' {
        part
    } else if base.len() == 0 || base.last() == '/' {
        base + part
    } else {
        base + seq!['/'] + part
    }
}

/// `base` joined with `part`.
pub fn join_path(base: &str, part: &str) -> (res: String)
    ensures
        res@ == path_join(base@, part@),
{
    let b = to_chars(base);
    let p = to_chars(part);
    if p.len() > 0 && p[0] == '/' {
        return copy_str(part);
    }
    let mut res = copy_str(base);
    if b.len() > 0 && b[b.len() - 1] != '/' {
        push_char(&mut res, '/');
    }
    res.append(part);
    res
}

// ---------------------------------------------------------------------------
// Search directories
// ---------------------------------------------------------------------------

/// The segments of `s` separated by `:`, leaving out the empty ones.
pub open spec fn nonempty_segments(s: Seq<char>) -> Seq<Seq<char>>
    decreases s.len(),
{
    let head = first_segment(s, ':');
    let rest = if head.len() < s.len() {
        nonempty_segments(s.skip(head.len() + 1 as int))
    } else {
        Seq::empty()
    };
    if head.len() == 0 {
        rest
    } else {
        seq![head] + rest
    }
}

/// The data directories searched for icons: those of `$XDG_DATA_DIRS`, then
/// the usual system ones, then the user's `~/.local/share` where `$HOME` is
/// set.
pub open spec fn icon_search_dirs_spec(xdg_data_dirs: Seq<char>, home: Option<Seq<char>>) -> Seq<Seq<char>> {
    nonempty_segments(xdg_data_dirs) + seq![
        "/run/current-system/sw/share"@,
        "/usr/share"@,
        "/usr/local/share"@,
    ] + match home {
        Some(h) => seq![path_join(h, ".local/share"@)],
        None => Seq::empty(),
    }
}

proof fn lemma_segments_step(cur: Seq<char>, rest: Seq<char>)
    requires
        forall|k: int| 0 <= k < cur.len() ==> #[trigger] cur[k] != ':',
    ensures
        nonempty_segments(cur + seq![':'] + rest) == (if cur.len() == 0 {
            Seq::<Seq<char>>::empty()
        } else {
            seq![cur]
        }) + nonempty_segments(rest),
{
    let s = cur + seq![':'] + rest;
    crate::text::lemma_first_segment(s, ':', cur.len() as int);
    assert(s.take(cur.len() as int) =~= cur);
    assert(s.skip(cur.len() + 1 as int) =~= rest);
    if cur.len() == 0 {
        assert(Seq::<Seq<char>>::empty() + nonempty_segments(rest) =~= nonempty_segments(rest));
    }
}

proof fn lemma_segments_last(cur: Seq<char>)
    requires
        forall|k: int| 0 <= k < cur.len() ==> #[trigger] cur[k] != ':',
    ensures
        nonempty_segments(cur) == (if cur.len() == 0 {
            Seq::<Seq<char>>::empty()
        } else {
            seq![cur]
        }),
{
    crate::text::lemma_first_segment(cur, ':', cur.len() as int);
    assert(cur.take(cur.len() as int) =~= cur);
    if cur.len() > 0 {
        assert(seq![cur] + Seq::<Seq<char>>::empty() =~= seq![cur]);
    }
}

/// The data directories searched for icons (`xdg_data_dirs` is the value of
/// `$XDG_DATA_DIRS`, empty where unset; `home` that of `$HOME`).
pub fn icon_search_dirs(xdg_data_dirs: &str, home: Option<&str>) -> (res: Vec<String>)
    ensures
        views(res@) == icon_search_dirs_spec(
            xdg_data_dirs@,
            match home {
                Some(h) => Some(h@),
                None => None,
            },
        ),
{
    let cs = to_chars(xdg_data_dirs);
    let mut dirs: Vec<String> = Vec::new();
    let mut cur = String::new();
    let mut i: usize = 0;
    assert(cs@.skip(0) =~= cs@);
    while i < cs.len()
        invariant
            i <= cs@.len(),
            cs@ == xdg_data_dirs@,
            forall|k: int| 0 <= k < cur@.len() ==> #[trigger] cur@[k] != ':',
            views(dirs@) + nonempty_segments(cur@ + cs@.skip(i as int)) == nonempty_segments(
                xdg_data_dirs@,
            ),
        decreases cs.len() - i,
    {
        let c = cs[i];
        if c == ':' {
            proof {
                assert(cur@ + cs@.skip(i as int) =~= cur@ + seq![':'] + cs@.skip(i + 1));
                lemma_segments_step(cur@, cs@.skip(i + 1));
            }
            let ghost before = dirs@;
            if !cur.as_str().is_empty() {
                dirs.push(cur);
                proof {
                    assert(views(dirs@) =~= views(before) + seq![dirs@.last()@]);
                }
            }
            cur = String::new();
            proof {
                assert(cur@ + cs@.skip(i + 1) =~= cs@.skip(i + 1));
            }
        } else {
            let ghost old_cur = cur@;
            push_char(&mut cur, c);
            proof {
                assert(cur@ + cs@.skip(i + 1) =~= old_cur + cs@.skip(i as int));
            }
        }
        i = i + 1;
    }
    proof {
        assert(cur@ + cs@.skip(i as int) =~= cur@);
        lemma_segments_last(cur@);
    }
    let ghost before = dirs@;
    if !cur.as_str().is_empty() {
        dirs.push(cur);
        proof {
            assert(views(dirs@) =~= views(before) + seq![dirs@.last()@]);
        }
    } else {
        assert(views(dirs@) + Seq::<Seq<char>>::empty() =~= views(dirs@));
    }
    let ghost segs = dirs@;
    dirs.push(copy_str("/run/current-system/sw/share"));
    dirs.push(copy_str("/usr/share"));
    dirs.push(copy_str("/usr/local/share"));
    let ghost fixed = dirs@;
    proof {
        assert(views(fixed) =~= views(segs) + seq![
            "/run/current-system/sw/share"@,
            "/usr/share"@,
            "/usr/local/share"@,
        ]);
    }
    match home {
        Some(h) => {
            dirs.push(join_path(h, ".local/share"));
            proof {
                assert(views(dirs@) =~= views(fixed) + seq![path_join(h@, ".local/share"@)]);
            }
        },
        None => {
            assert(views(dirs@) =~= views(fixed) + Seq::<Seq<char>>::empty());
        },
    }
    dirs
}

// ---------------------------------------------------------------------------
// Icon themes, sizes and categories
// ---------------------------------------------------------------------------

/// The icon themes searched, in order.
pub open spec fn theme_dir(i: int) -> Seq<char> {
    if i == 0 {
        "hicolor"@
    } else if i == 1 {
        "Adwaita"@
    } else if i == 2 {
        "breeze"@
    } else if i == 3 {
        "Cosmic"@
    } else if i == 4 {
        "Pop"@
    } else if i == 5 {
        "MoreWaita"@
    } else if i == 6 {
        "gnome"@
    } else {
        "oxygen"@
    }
}

/// The icon sizes searched, scalable and then largest first.
pub open spec fn size_dir(i: int) -> Seq<char> {
    if i == 0 {
        "scalable"@
    } else if i == 1 {
        "512x512"@
    } else if i == 2 {
        "256x256"@
    } else if i == 3 {
        "128x128"@
    } else if i == 4 {
        "96x96"@
    } else if i == 5 {
        "72x72"@
    } else if i == 6 {
        "64x64"@
    } else if i == 7 {
        "48x48"@
    } else if i == 8 {
        "32x32"@
    } else if i == 9 {
        "24x24"@
    } else if i == 10 {
        "22x22"@
    } else {
        "16x16"@
    }
}

/// The icon categories searched, in order.
pub open spec fn category_dir(i: int) -> Seq<char> {
    if i == 0 {
        "apps"@
    } else if i == 1 {
        "applications"@
    } else if i == 2 {
        "mimetypes"@
    } else if i == 3 {
        "places"@
    } else {
        "devices"@
    }
}

fn theme_dir_name(i: usize) -> (res: &'static str)
    requires
        i < 8,
    ensures
        res@ == theme_dir(i as int),
{
    if i == 0 {
        "hicolor"
    } else if i == 1 {
        "Adwaita"
    } else if i == 2 {
        "breeze"
    } else if i == 3 {
        "Cosmic"
    } else if i == 4 {
        "Pop"
    } else if i == 5 {
        "MoreWaita"
    } else if i == 6 {
        "gnome"
    } else {
        "oxygen"
    }
}

fn size_dir_name(i: usize) -> (res: &'static str)
    requires
        i < 12,
    ensures
        res@ == size_dir(i as int),
{
    if i == 0 {
        "scalable"
    } else if i == 1 {
        "512x512"
    } else if i == 2 {
        "256x256"
    } else if i == 3 {
        "128x128"
    } else if i == 4 {
        "96x96"
    } else if i == 5 {
        "72x72"
    } else if i == 6 {
        "64x64"
    } else if i == 7 {
        "48x48"
    } else if i == 8 {
        "32x32"
    } else if i == 9 {
        "24x24"
    } else if i == 10 {
        "22x22"
    } else {
        "16x16"
    }
}

fn category_dir_name(i: usize) -> (res: &'static str)
    requires
        i < 5,
    ensures
        res@ == category_dir(i as int),
{
    if i == 0 {
        "apps"
    } else if i == 1 {
        "applications"
    } else if i == 2 {
        "mimetypes"
    } else if i == 3 {
        "places"
    } else {
        "devices"
    }
}

// ---------------------------------------------------------------------------
// Candidates
// ---------------------------------------------------------------------------

/// `base/icons/theme/size/category/file`.
pub open spec fn themed_path(
    base: Seq<char>,
    theme: Seq<char>,
    size: Seq<char>,
    category: Seq<char>,
    file: Seq<char>,
) -> Seq<char> {
    path_join(path_join(path_join(path_join(path_join(base, "icons"@), theme), size), category), file)
}

/// `base/pixmaps/file`.
pub open spec fn pixmap_path(base: Seq<char>, file: Seq<char>) -> Seq<char> {
    path_join(path_join(base, "pixmaps"@), file)
}

/// The `k`-th scalable candidate: themes in order, each with its categories.
pub open spec fn scalable_candidate(base: Seq<char>, file: Seq<char>, k: int) -> Seq<char> {
    themed_path(base, theme_dir(k / 5), "scalable"@, category_dir(k % 5), file)
}

/// The `k`-th sized candidate over all sizes: themes, then sizes, then
/// categories.
pub open spec fn sized_candidate(base: Seq<char>, file: Seq<char>, k: int) -> Seq<char> {
    themed_path(base, theme_dir(k / 60), size_dir((k / 5) % 12), category_dir(k % 5), file)
}

/// The `k`-th sized candidate over the fixed sizes (all but `scalable`).
pub open spec fn fixed_size_candidate(base: Seq<char>, file: Seq<char>, k: int) -> Seq<char> {
    themed_path(base, theme_dir(k / 55), size_dir((k / 5) % 11 + 1), category_dir(k % 5), file)
}

/// The SVG candidates under one data directory: the pixmap, then each
/// theme's scalable icons, then each theme's icons of every size.
pub open spec fn svg_candidates(base: Seq<char>, name: Seq<char>) -> Seq<Seq<char>> {
    let file = name + ".svg"@;
    seq![pixmap_path(base, file)] + Seq::new(40, |k: int| scalable_candidate(base, file, k))
        + Seq::new(480, |k: int| sized_candidate(base, file, k))
}

/// The PNG candidates under one data directory: each theme's icons from the
/// largest size down, then the pixmap.
pub open spec fn png_candidates(base: Seq<char>, name: Seq<char>) -> Seq<Seq<char>> {
    let file = name + ".png"@;
    Seq::new(440, |k: int| fixed_size_candidate(base, file, k)) + seq![pixmap_path(base, file)]
}

/// The XPM candidate under one data directory.
pub open spec fn xpm_candidates(base: Seq<char>, name: Seq<char>) -> Seq<Seq<char>> {
    seq![pixmap_path(base, name + ".xpm"@)]
}

/// The candidates of every data directory, in order of the directories.
pub open spec fn per_dir(dirs: Seq<Seq<char>>, name: Seq<char>, kind: int) -> Seq<Seq<char>>
    decreases dirs.len(),
{
    if dirs.len() == 0 {
        Seq::empty()
    } else {
        per_dir(dirs.drop_last(), name, kind) + dir_candidates(dirs.last(), name, kind)
    }
}

/// The candidates of one kind (0 SVG, 1 PNG, 2 XPM) under one data directory.
pub open spec fn dir_candidates(base: Seq<char>, name: Seq<char>, kind: int) -> Seq<Seq<char>> {
    if kind == 0 {
        svg_candidates(base, name)
    } else if kind == 1 {
        png_candidates(base, name)
    } else {
        xpm_candidates(base, name)
    }
}

/// All candidate files for the icon `name`, best first: SVG icons under every
/// data directory, then PNG icons, then XPM pixmaps.
pub open spec fn icon_candidates_spec(dirs: Seq<Seq<char>>, name: Seq<char>) -> Seq<Seq<char>> {
    per_dir(dirs, name, 0) + per_dir(dirs, name, 1) + per_dir(dirs, name, 2)
}

fn themed(base: &str, theme: &str, size: &str, category: &str, file: &str) -> (res: String)
    ensures
        res@ == themed_path(base@, theme@, size@, category@, file@),
{
    let a = join_path(base, "icons");
    let b = join_path(a.as_str(), theme);
    let c = join_path(b.as_str(), size);
    let d = join_path(c.as_str(), category);
    join_path(d.as_str(), file)
}

fn pixmap(base: &str, file: &str) -> (res: String)
    ensures
        res@ == pixmap_path(base@, file@),
{
    let a = join_path(base, "pixmaps");
    join_path(a.as_str(), file)
}

fn push_svg_candidates(out: &mut Vec<String>, base: &str, name: &str)
    ensures
        views(final(out)@) == views(old(out)@) + svg_candidates(base@, name@),
{
    let file = concat(name, ".svg");
    let ghost start = views(out@);
    out.push(pixmap(base, file.as_str()));
    let ghost f1 = |k: int| scalable_candidate(base@, file@, k);
    let ghost f2 = |k: int| sized_candidate(base@, file@, k);
    let ghost after_pixmap = views(out@);
    proof {
        assert(after_pixmap =~= start + seq![pixmap_path(base@, file@)]);
        assert(after_pixmap + Seq::new(0, f1) =~= after_pixmap);
    }
    let mut t: usize = 0;
    while t < 8
        invariant
            t <= 8,
            views(out@) == after_pixmap + Seq::new((t * 5) as nat, f1),
            f1 == (|k: int| scalable_candidate(base@, file@, k)),
        decreases 8 - t,
    {
        let mut c: usize = 0;
        while c < 5
            invariant
                t < 8,
                c <= 5,
                views(out@) == after_pixmap + Seq::new((t * 5 + c) as nat, f1),
                f1 == (|k: int| scalable_candidate(base@, file@, k)),
            decreases 5 - c,
        {
            let ghost prev = views(out@);
            out.push(themed(base, theme_dir_name(t), "scalable", category_dir_name(c), file.as_str()));
            proof {
                let k = t * 5 + c;
                assert(k / 5 == t && k % 5 == c);
                assert(views(out@) =~= prev.push(f1(k as int)));
                assert(Seq::new((k + 1) as nat, f1) =~= Seq::new(k as nat, f1).push(f1(k as int)));
            }
            c = c + 1;
        }
        t = t + 1;
    }
    let ghost after_scalable = views(out@);
    proof {
        assert(after_scalable + Seq::new(0, f2) =~= after_scalable);
    }
    let mut t: usize = 0;
    while t < 8
        invariant
            t <= 8,
            views(out@) == after_scalable + Seq::new((t * 60) as nat, f2),
            f2 == (|k: int| sized_candidate(base@, file@, k)),
        decreases 8 - t,
    {
        let mut s: usize = 0;
        while s < 12
            invariant
                t < 8,
                s <= 12,
                views(out@) == after_scalable + Seq::new((t * 60 + s * 5) as nat, f2),
                f2 == (|k: int| sized_candidate(base@, file@, k)),
            decreases 12 - s,
        {
            let mut c: usize = 0;
            while c < 5
                invariant
                    t < 8,
                    s < 12,
                    c <= 5,
                    views(out@) == after_scalable + Seq::new((t * 60 + s * 5 + c) as nat, f2),
                    f2 == (|k: int| sized_candidate(base@, file@, k)),
                decreases 5 - c,
            {
                let ghost prev = views(out@);
                out.push(
                    themed(
                        base,
                        theme_dir_name(t),
                        size_dir_name(s),
                        category_dir_name(c),
                        file.as_str(),
                    ),
                );
                proof {
                    let k = t * 60 + s * 5 + c;
                    assert(k / 60 == t && (k / 5) % 12 == s && k % 5 == c);
                    assert(views(out@) =~= prev.push(f2(k as int)));
                    assert(Seq::new((k + 1) as nat, f2) =~= Seq::new(k as nat, f2).push(
                        f2(k as int),
                    ));
                }
                c = c + 1;
            }
            s = s + 1;
        }
        t = t + 1;
    }
    proof {
        assert(views(out@) =~= start + svg_candidates(base@, name@));
    }
}

fn push_png_candidates(out: &mut Vec<String>, base: &str, name: &str)
    ensures
        views(final(out)@) == views(old(out)@) + png_candidates(base@, name@),
{
    let file = concat(name, ".png");
    let ghost start = views(out@);
    let ghost f = |k: int| fixed_size_candidate(base@, file@, k);
    proof {
        assert(start + Seq::new(0, f) =~= start);
    }
    let mut t: usize = 0;
    while t < 8
        invariant
            t <= 8,
            views(out@) == start + Seq::new((t * 55) as nat, f),
            f == (|k: int| fixed_size_candidate(base@, file@, k)),
        decreases 8 - t,
    {
        let mut s: usize = 1;
        while s < 12
            invariant
                t < 8,
                1 <= s <= 12,
                views(out@) == start + Seq::new((t * 55 + (s - 1) * 5) as nat, f),
                f == (|k: int| fixed_size_candidate(base@, file@, k)),
            decreases 12 - s,
        {
            let mut c: usize = 0;
            while c < 5
                invariant
                    t < 8,
                    1 <= s < 12,
                    c <= 5,
                    views(out@) == start + Seq::new((t * 55 + (s - 1) * 5 + c) as nat, f),
                    f == (|k: int| fixed_size_candidate(base@, file@, k)),
                decreases 5 - c,
            {
                let ghost prev = views(out@);
                out.push(
                    themed(
                        base,
                        theme_dir_name(t),
                        size_dir_name(s),
                        category_dir_name(c),
                        file.as_str(),
                    ),
                );
                proof {
                    let k = t * 55 + (s - 1) * 5 + c;
                    assert(k / 55 == t && (k / 5) % 11 + 1 == s && k % 5 == c);
                    assert(views(out@) =~= prev.push(f(k as int)));
                    assert(Seq::new((k + 1) as nat, f) =~= Seq::new(k as nat, f).push(
                        f(k as int),
                    ));
                }
                c = c + 1;
            }
            s = s + 1;
        }
        t = t + 1;
    }
    let ghost themed_part = views(out@);
    out.push(pixmap(base, file.as_str()));
    proof {
        assert(views(out@) =~= themed_part.push(pixmap_path(base@, file@)));
        assert(views(out@) =~= start + png_candidates(base@, name@));
    }
}

/// All candidate files for the icon `icon_name` under the data directories
/// `dirs`, best first.
pub fn icon_candidates(dirs: &Vec<String>, icon_name: &str) -> (res: Vec<String>)
    ensures
        views(res@) == icon_candidates_spec(views(dirs@), icon_name@),
{
    let mut out: Vec<String> = Vec::new();
    let mut kind: usize = 0;
    while kind < 3
        invariant
            kind <= 3,
            views(out@) == (if kind == 0 {
                Seq::<Seq<char>>::empty()
            } else if kind == 1 {
                per_dir(views(dirs@), icon_name@, 0)
            } else if kind == 2 {
                per_dir(views(dirs@), icon_name@, 0) + per_dir(views(dirs@), icon_name@, 1)
            } else {
                icon_candidates_spec(views(dirs@), icon_name@)
            }),
        decreases 3 - kind,
    {
        let ghost start = views(out@);
        let mut i: usize = 0;
        while i < dirs.len()
            invariant
                kind < 3,
                i <= dirs@.len(),
                views(out@) == start + per_dir(views(dirs@).take(i as int), icon_name@, kind as int),
            decreases dirs.len() - i,
        {
            let ghost prev = views(out@);
            if kind == 0 {
                push_svg_candidates(&mut out, dirs[i].as_str(), icon_name);
            } else if kind == 1 {
                push_png_candidates(&mut out, dirs[i].as_str(), icon_name);
            } else {
                out.push(pixmap(dirs[i].as_str(), concat(icon_name, ".xpm").as_str()));
                proof {
                    assert(views(out@) =~= prev + xpm_candidates(dirs@[i as int]@, icon_name@));
                }
            }
            proof {
                let d = views(dirs@).take(i + 1);
                assert(d.drop_last() =~= views(dirs@).take(i as int));
                assert(d.last() == dirs@[i as int]@);
                assert(views(out@) =~= start + per_dir(d, icon_name@, kind as int));
            }
            i = i + 1;
        }
        proof {
            assert(views(dirs@).take(dirs@.len() as int) =~= views(dirs@));
            if kind == 0 {
                assert(views(out@) =~= per_dir(views(dirs@), icon_name@, 0));
            }
        }
        kind = kind + 1;
    }
    out
}

// ---------------------------------------------------------------------------
// Laws
// ---------------------------------------------------------------------------

proof fn lemma_join_has_suffix(base: Seq<char>, part: Seq<char>)
    ensures
        crate::text::has_suffix(path_join(base, part), part),
{
    let j = path_join(base, part);
    assert(j.skip(j.len() - part.len()) =~= part);
}

/// The file name searched for with each kind of candidate.
pub open spec fn kind_file(name: Seq<char>, kind: int) -> Seq<char> {
    if kind == 0 {
        name + ".svg"@
    } else if kind == 1 {
        name + ".png"@
    } else {
        name + ".xpm"@
    }
}

proof fn lemma_dir_candidates_suffix(base: Seq<char>, name: Seq<char>, kind: int)
    requires
        0 <= kind <= 2,
    ensures
        forall|k: int| 0 <= k < dir_candidates(base, name, kind).len() ==> crate::text::has_suffix(
            #[trigger] dir_candidates(base, name, kind)[k],
            kind_file(name, kind),
        ),
{
    let file = kind_file(name, kind);
    if kind == 0 {
        let c = svg_candidates(base, name);
        assert forall|k: int| 0 <= k < c.len() implies crate::text::has_suffix(#[trigger] c[k], file) by {
            if k == 0 {
                lemma_join_has_suffix(path_join(base, "pixmaps"@), file);
            } else if k < 41 {
                let t = k - 1;
                lemma_join_has_suffix(
                    path_join(path_join(path_join(path_join(base, "icons"@), theme_dir(t / 5)), "scalable"@), category_dir(t % 5)),
                    file,
                );
            } else {
                let t = k - 41;
                lemma_join_has_suffix(
                    path_join(path_join(path_join(path_join(base, "icons"@), theme_dir(t / 60)), size_dir((t / 5) % 12)), category_dir(t % 5)),
                    file,
                );
            }
        }
    } else if kind == 1 {
        let c = png_candidates(base, name);
        assert forall|k: int| 0 <= k < c.len() implies crate::text::has_suffix(#[trigger] c[k], file) by {
            if k < 440 {
                lemma_join_has_suffix(
                    path_join(path_join(path_join(path_join(base, "icons"@), theme_dir(k / 55)), size_dir((k / 5) % 11 + 1)), category_dir(k % 5)),
                    file,
                );
            } else {
                lemma_join_has_suffix(path_join(base, "pixmaps"@), file);
            }
        }
    } else {
        lemma_join_has_suffix(path_join(base, "pixmaps"@), file);
    }
}

proof fn lemma_per_dir_suffix(dirs: Seq<Seq<char>>, name: Seq<char>, kind: int)
    requires
        0 <= kind <= 2,
    ensures
        forall|k: int| 0 <= k < per_dir(dirs, name, kind).len() ==> crate::text::has_suffix(
            #[trigger] per_dir(dirs, name, kind)[k],
            kind_file(name, kind),
        ),
    decreases dirs.len(),
{
    if dirs.len() > 0 {
        lemma_per_dir_suffix(dirs.drop_last(), name, kind);
        lemma_dir_candidates_suffix(dirs.last(), name, kind);
        let rest = per_dir(dirs.drop_last(), name, kind);
        let all = per_dir(dirs, name, kind);
        assert forall|k: int| 0 <= k < all.len() implies crate::text::has_suffix(#[trigger] all[k], kind_file(name, kind)) by {
            if k < rest.len() {
                assert(all[k] == rest[k]);
            } else {
                assert(all[k] == dir_candidates(dirs.last(), name, kind)[k - rest.len()]);
            }
        }
    }
}

/// SVG icons come first, then PNG icons, then XPM pixmaps: the candidates
/// fall into three runs, each naming files `name.svg`, `name.png` and
/// `name.xpm` respectively.
pub proof fn law_svg_then_png_then_xpm(dirs: Seq<Seq<char>>, name: Seq<char>)
    ensures
        ({
            let c = icon_candidates_spec(dirs, name);
            let a = per_dir(dirs, name, 0).len();
            let b = a + per_dir(dirs, name, 1).len();
            &&& forall|k: int| 0 <= k < a ==> crate::text::has_suffix(#[trigger] c[k], name + ".svg"@)
            &&& forall|k: int| a <= k < b ==> crate::text::has_suffix(#[trigger] c[k], name + ".png"@)
            &&& forall|k: int| b <= k < c.len() ==> crate::text::has_suffix(#[trigger] c[k], name + ".xpm"@)
        }),
{
    lemma_per_dir_suffix(dirs, name, 0);
    lemma_per_dir_suffix(dirs, name, 1);
    lemma_per_dir_suffix(dirs, name, 2);
    let c = icon_candidates_spec(dirs, name);
    let p0 = per_dir(dirs, name, 0);
    let p1 = per_dir(dirs, name, 1);
    let p2 = per_dir(dirs, name, 2);
    assert forall|k: int| 0 <= k < p0.len() implies crate::text::has_suffix(#[trigger] c[k], name + ".svg"@) by {
        assert(c[k] == p0[k]);
    }
    assert forall|k: int| p0.len() <= k < p0.len() + p1.len() implies crate::text::has_suffix(#[trigger] c[k], name + ".png"@) by {
        assert(c[k] == p1[k - p0.len()]);
    }
    assert forall|k: int| p0.len() + p1.len() <= k < c.len() implies crate::text::has_suffix(#[trigger] c[k], name + ".xpm"@) by {
        assert(c[k] == p2[k - p0.len() - p1.len()]);
    }
}


/// No path ends in two of `name.svg`, `name.png` and `name.xpm`.
proof fn lemma_kinds_differ(s: Seq<char>, name: Seq<char>, i: int, j: int)
    requires
        0 <= i <= 2,
        0 <= j <= 2,
        i != j,
    ensures
        !(crate::text::has_suffix(s, kind_file(name, i)) && crate::text::has_suffix(s, kind_file(name, j))),
{
    reveal_strlit(".svg");
    reveal_strlit(".png");
    reveal_strlit(".xpm");
    if crate::text::has_suffix(s, kind_file(name, i)) && crate::text::has_suffix(s, kind_file(name, j)) {
        let p = kind_file(name, i);
        let q = kind_file(name, j);
        let n: int = name.len() as int;
        assert(p.len() == n + 4 && q.len() == n + 4);
        assert(s.skip(s.len() - p.len())[n + 1] == s[s.len() - 3]);
        assert(s.skip(s.len() - q.len())[n + 1] == s[s.len() - 3]);
        assert(kind_file(name, 0)[n + 1] == ".svg"@[1]);
        assert(kind_file(name, 1)[n + 1] == ".png"@[1]);
        assert(kind_file(name, 2)[n + 1] == ".xpm"@[1]);
        assert(p[n + 1] != q[n + 1]);
    }
}

/// The first candidate that exists, whichever files exist (`present`), is an
/// SVG icon wherever an SVG candidate exists, and an XPM pixmap only where no
/// SVG or PNG candidate exists.
pub proof fn law_first_existing_candidate(
    dirs: Seq<Seq<char>>,
    name: Seq<char>,
    present: spec_fn(Seq<char>) -> bool,
    k: int,
)
    requires
        0 <= k < icon_candidates_spec(dirs, name).len(),
        present(icon_candidates_spec(dirs, name)[k]),
        forall|l: int| 0 <= l < k ==> !present(#[trigger] icon_candidates_spec(dirs, name)[l]),
    ensures
        ({
            let c = icon_candidates_spec(dirs, name);
            &&& (exists|l: int| 0 <= l < c.len() && present(c[l]) && crate::text::has_suffix(#[trigger] c[l], name + ".svg"@))
                ==> crate::text::has_suffix(c[k], name + ".svg"@)
            &&& crate::text::has_suffix(c[k], name + ".xpm"@) ==> forall|l: int| 0 <= l < c.len() && present(#[trigger] c[l])
                ==> !crate::text::has_suffix(c[l], name + ".svg"@) && !crate::text::has_suffix(c[l], name + ".png"@)
        }),
{
    let c = icon_candidates_spec(dirs, name);
    law_svg_then_png_then_xpm(dirs, name);
    let a = per_dir(dirs, name, 0).len();
    let b = a + per_dir(dirs, name, 1).len();
    assert(kind_file(name, 0) == name + ".svg"@);
    assert(kind_file(name, 1) == name + ".png"@);
    assert(kind_file(name, 2) == name + ".xpm"@);
    if exists|l: int| 0 <= l < c.len() && present(c[l]) && crate::text::has_suffix(#[trigger] c[l], name + ".svg"@) {
        let l = choose|l: int| 0 <= l < c.len() && present(c[l]) && crate::text::has_suffix(#[trigger] c[l], name + ".svg"@);
        if l >= a {
            if l < b {
                lemma_kinds_differ(c[l], name, 0, 1);
            } else {
                lemma_kinds_differ(c[l], name, 0, 2);
            }
        }
        assert(!(l < k));
    }
    if crate::text::has_suffix(c[k], name + ".xpm"@) {
        if k < a {
            lemma_kinds_differ(c[k], name, 0, 2);
        } else if k < b {
            lemma_kinds_differ(c[k], name, 1, 2);
        }
        assert forall|l: int| 0 <= l < c.len() && present(#[trigger] c[l]) implies !crate::text::has_suffix(
            c[l],
            name + ".svg"@,
        ) && !crate::text::has_suffix(c[l], name + ".png"@) by {
            assert(!(l < k));
            lemma_kinds_differ(c[l], name, 0, 2);
            lemma_kinds_differ(c[l], name, 1, 2);
        }
    }
}

} // verus!
