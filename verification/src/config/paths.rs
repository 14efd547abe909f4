//! Where files are.

use vstd::prelude::*;

use crate::text::{chars_of, has_at, strings_view, strip_prefix, after_prefix};

verus! {

/// The path `p` relative to the directory `dir`.
pub open spec fn path_joined(dir: Seq<char>, p: Seq<char>) -> Seq<char> {
    if p.len() > 0 && p[0] == '/' {
        p
    } else if dir.len() == 0 || dir.last() == '/' {
        dir + p
    } else {
        dir.push('/') + p
    }
}

pub fn join_path(dir: &str, p: &str) -> (r: String)
    ensures
        r@ == path_joined(dir@, p@),
{
    let pc = chars_of(p);
    if pc.len() > 0 && pc[0] == '/' {
        return p.to_owned();
    }
    let d = chars_of(dir);
    let mut r = dir.to_owned();
    if d.len() > 0 && d[d.len() - 1] != '/' {
        r.push('/');
    }
    r.append(p);
    r
}

/// The home directory, `/root` where none is set.
pub open spec fn home_of(home: Option<Seq<char>>) -> Seq<char> {
    match home {
        Some(h) => h,
        None => "/root"@,
    }
}

pub open spec fn opt_str(s: Option<&str>) -> Option<Seq<char>> {
    match s {
        Some(s) => Some(s@),
        None => None,
    }
}

/// The directory of the configuration.
pub open spec fn config_dir_of(config_home: Option<Seq<char>>, home: Option<Seq<char>>) -> Seq<char> {
    path_joined(
        match config_home {
            Some(d) => d,
            None => path_joined(home_of(home), ".config"@),
        },
        "trixie"@,
    )
}

/// The directory of the configuration; `config_home` and `home` are what the
/// environment sets as such.
pub fn config_dir(config_home: Option<&str>, home: Option<&str>) -> (r: String)
    ensures
        r@ == config_dir_of(opt_str(config_home), opt_str(home)),
{
    match config_home {
        Some(d) => join_path(d, "trixie"),
        None => {
            let h = match home {
                Some(h) => h,
                None => "/root",
            };
            join_path(join_path(h, ".config").as_str(), "trixie")
        },
    }
}

/// The file of the configuration.
pub fn config_path(config_home: Option<&str>, home: Option<&str>) -> (r: String)
    ensures
        r@ == path_joined(config_dir_of(opt_str(config_home), opt_str(home)), "trixie.conf"@),
{
    join_path(config_dir(config_home, home).as_str(), "trixie.conf")
}

// ── Fonts ────────────────────────────────────────────────────────────────────

/// How a font is found: at a path, or by names in directories.
#[derive(Debug)]
pub enum FontPlan {
    At(String),
    Search { dirs: Vec<String>, names: Vec<String> },
}

/// What a [`FontPlan`] holds.
pub enum PlanView {
    At(Seq<char>),
    Search { dirs: Seq<Seq<char>>, names: Seq<Seq<char>> },
}

impl View for FontPlan {
    type V = PlanView;

    open spec fn view(&self) -> PlanView {
        match *self {
            FontPlan::At(p) => PlanView::At(p@),
            FontPlan::Search { dirs, names } => PlanView::Search {
                dirs: strings_view(dirs@),
                names: strings_view(names@),
            },
        }
    }
}

/// The directories in which fonts are looked for, those of the user first.
pub open spec fn font_dirs(home: Seq<char>, data: Seq<char>) -> Seq<Seq<char>> {
    seq![
        data + "/fonts"@,
        home + "/.fonts"@,
        home + "/.local/share/fonts"@,
        "/usr/share/fonts"@,
        "/usr/share/fonts/Iosevka"@,
        "/usr/local/share/fonts"@,
        "/usr/share/fonts/TTF"@,
        "/usr/share/fonts/OTF"@,
        "/usr/share/fonts/truetype"@,
        "/usr/share/fonts/opentype"@,
    ]
}

pub open spec fn ends_in(s: Seq<char>, suffix: Seq<char>) -> bool {
    has_at(s, s.len() - suffix.len(), suffix)
}

/// The names under which a font is looked for: as given, and where that has no
/// extension of a font, with each of them.
pub open spec fn font_names(s: Seq<char>) -> Seq<Seq<char>> {
    if ends_in(s, ".ttf"@) || ends_in(s, ".otf"@) || ends_in(s, ".TTF"@) || ends_in(s, ".OTF"@) {
        seq![s]
    } else {
        seq![s, s + ".ttf"@, s + ".otf"@, s + ".TTF"@, s + ".OTF"@]
    }
}

/// How the font `s` is found: an absolute path and one in the home directory
/// are taken as they are.
pub open spec fn font_plan_of(s: Seq<char>, home: Option<Seq<char>>, data: Option<Seq<char>>) -> PlanView {
    let h = home_of(home);
    if s.len() > 0 && s[0] == '/' {
        PlanView::At(s)
    } else if after_prefix(s, "~/"@) is Some {
        PlanView::At(path_joined(h, after_prefix(s, "~/"@)->0))
    } else {
        PlanView::Search {
            dirs: font_dirs(
                h,
                match data {
                    Some(d) => d,
                    None => h + "/.local/share"@,
                },
            ),
            names: font_names(s),
        }
    }
}

fn joined(a: &str, b: &str) -> (r: String)
    ensures
        r@ == a@ + b@,
{
    let mut r = a.to_owned();
    r.append(b);
    r
}

fn has_ending(s: &str, suffix: &str) -> (r: bool)
    ensures
        r == ends_in(s@, suffix@),
{
    let c = chars_of(s);
    let n: usize = chars_of(suffix).len();
    n <= c.len() && crate::text::found_at(c.as_slice(), c.len() - n, suffix)
}

/// How the font `s` is found; `home` and `data_home` are what the environment
/// sets as such.
pub fn font_plan(s: &str, home: Option<&str>, data_home: Option<&str>) -> (r: FontPlan)
    ensures
        r@ == font_plan_of(s@, opt_str(home), opt_str(data_home)),
{
    let c = chars_of(s);
    let h = match home {
        Some(h) => h,
        None => "/root",
    };
    if c.len() > 0 && c[0] == '/' {
        return FontPlan::At(s.to_owned());
    }
    if let Some(rest) = strip_prefix(c.as_slice(), "~/") {
        return FontPlan::At(join_path(h, crate::text::string_of(rest).as_str()));
    }
    let data = match data_home {
        Some(d) => d.to_owned(),
        None => joined(h, "/.local/share"),
    };
    let mut dirs: Vec<String> = Vec::new();
    dirs.push(joined(data.as_str(), "/fonts"));
    dirs.push(joined(h, "/.fonts"));
    dirs.push(joined(h, "/.local/share/fonts"));
    dirs.push("/usr/share/fonts".to_owned());
    dirs.push("/usr/share/fonts/Iosevka".to_owned());
    dirs.push("/usr/local/share/fonts".to_owned());
    dirs.push("/usr/share/fonts/TTF".to_owned());
    dirs.push("/usr/share/fonts/OTF".to_owned());
    dirs.push("/usr/share/fonts/truetype".to_owned());
    dirs.push("/usr/share/fonts/opentype".to_owned());
    let mut names: Vec<String> = Vec::new();
    names.push(s.to_owned());
    if !has_ending(s, ".ttf") && !has_ending(s, ".otf") && !has_ending(s, ".TTF") && !has_ending(
        s,
        ".OTF",
    ) {
        names.push(joined(s, ".ttf"));
        names.push(joined(s, ".otf"));
        names.push(joined(s, ".TTF"));
        names.push(joined(s, ".OTF"));
    }
    proof {
        assert(strings_view(dirs@) =~= font_dirs(h@, data@));
        assert(strings_view(names@) =~= font_names(s@));
    }
    FontPlan::Search { dirs, names }
}

/// The paths at which `names` are looked for in one of the directories `dirs`.
pub open spec fn probes_in(dirs: Seq<Seq<char>>, names: Seq<Seq<char>>) -> Seq<Seq<char>>
    decreases dirs.len(),
{
    if dirs.len() == 0 {
        Seq::empty()
    } else {
        probes_in(dirs.drop_last(), names) + Seq::new(
            names.len(),
            |i: int| path_joined(dirs.last(), names[i]),
        )
    }
}

/// The paths at which a font can be, in the order in which they are tried:
/// in each directory under each name. `dirs` holds a directory, then those
/// directly in it.
pub fn font_probes(dirs: &Vec<String>, names: &Vec<String>) -> (r: Vec<String>)
    ensures
        strings_view(r@) == probes_in(strings_view(dirs@), strings_view(names@)),
{
    let ghost dv = strings_view(dirs@);
    let ghost nv = strings_view(names@);
    let mut r: Vec<String> = Vec::new();
    let mut i: usize = 0;
    assert(strings_view(r@) =~= probes_in(dv.take(0), nv));
    while i < dirs.len()
        invariant
            i <= dirs@.len(),
            dv == strings_view(dirs@),
            nv == strings_view(names@),
            strings_view(r@) == probes_in(dv.take(i as int), nv),
        decreases dirs@.len() - i,
    {
        let ghost base = strings_view(r@);
        let ghost all = Seq::new(nv.len(), |k: int| path_joined(dv[i as int], nv[k]));
        let mut k: usize = 0;
        assert(strings_view(r@) =~= base + all.take(0));
        while k < names.len()
            invariant
                k <= names@.len(),
                i < dirs@.len(),
                dv == strings_view(dirs@),
                nv == strings_view(names@),
                all == Seq::new(nv.len(), |k: int| path_joined(dv[i as int], nv[k])),
                strings_view(r@) == base + all.take(k as int),
            decreases names@.len() - k,
        {
            let ghost before = r@;
            let p = join_path(dirs[i].as_str(), names[k].as_str());
            assert(p@ == all[k as int]);
            r.push(p);
            k += 1;
            assert(strings_view(r@) =~= strings_view(before).push(p@));
            assert(all.take(k as int) =~= all.take(k - 1).push(all[k - 1]));
            assert(strings_view(r@) =~= base + all.take(k as int));
        }
        i += 1;
        assert(all.take(k as int) =~= all);
        assert(dv.take(i as int).drop_last() =~= dv.take(i - 1));
        assert(dv.take(i as int).last() == dv[i - 1]);
    }
    assert(dv.take(i as int) =~= dv);
    r
}

} // verus!
