//! Template paths: Unix path components as std's `Path::components` reads them,
//! lexical normalization, home expansion, include resolution, and the host-folder
//! split that mounts an external template's directory.

use vstd::prelude::*;
use crate::chars::{chars_of, extend_chars, split_chars, split_spec, string_of, views};
use crate::RenderError;

verus! {

/// One component of a path after its root: `.` (kept only at the start of a relative
/// path), `..`, or a name.
#[derive(Clone, Debug, PartialEq, Eq)]
pub enum Comp {
    CurDir,
    ParentDir,
    Normal(Vec<char>),
}

/// The value of a path component.
pub enum CompV {
    CurDir,
    ParentDir,
    Normal(Seq<char>),
}

impl View for Comp {
    type V = CompV;

    open spec fn view(&self) -> CompV {
        match self {
            Comp::CurDir => CompV::CurDir,
            Comp::ParentDir => CompV::ParentDir,
            Comp::Normal(n) => CompV::Normal(n@),
        }
    }
}

/// The values of a sequence of components.
pub open spec fn comp_views(cs: Seq<Comp>) -> Seq<CompV> {
    cs.map_values(|c: Comp| c@)
}

/// Whether a path is absolute (it begins at the root).
pub open spec fn is_absolute(s: Seq<char>) -> bool {
    s.len() > 0 && s[0] == '/'
}

/// The component that the `k`-th `/`-separated piece of a path contributes: none for an
/// empty piece or a `.` that is not the first piece of a relative path.
pub open spec fn piece_comp(p: Seq<char>, k: int, absolute: bool) -> Option<CompV> {
    if p.len() == 0 {
        None
    } else if p == seq!['.'] {
        if k == 0 && !absolute { Some(CompV::CurDir) } else { None }
    } else if p == seq!['.', '.'] {
        Some(CompV::ParentDir)
    } else {
        Some(CompV::Normal(p))
    }
}

/// The components of the pieces of a path, in order.
pub open spec fn comps_of_pieces(pieces: Seq<Seq<char>>, absolute: bool) -> Seq<CompV>
    decreases pieces.len(),
{
    if pieces.len() == 0 {
        Seq::empty()
    } else {
        let front = comps_of_pieces(pieces.drop_last(), absolute);
        match piece_comp(pieces.last(), pieces.len() - 1, absolute) {
            Some(c) => front.push(c),
            None => front,
        }
    }
}

/// The components of a path after its root (std's documented reading: repeated
/// separators and a trailing separator are ignored, `.` is dropped except at the start of
/// a relative path).
pub open spec fn components(s: Seq<char>) -> Seq<CompV> {
    comps_of_pieces(split_spec(s, '/'), is_absolute(s))
}

/// Splits a path into its root flag and components.
pub fn path_components(s: &[char]) -> (r: (bool, Vec<Comp>))
    ensures
        r.0 == is_absolute(s@),
        comp_views(r.1@) == components(s@),
{
    let absolute = s.len() > 0 && s[0] == '/';
    let pieces = split_chars(s, '/');
    let ghost pv = views(pieces@);
    let mut out: Vec<Comp> = Vec::new();
    let mut k: usize = 0;
    proof {
        assert(pv.take(0) =~= Seq::<Seq<char>>::empty());
    }
    while k < pieces.len()
        invariant
            k <= pieces@.len(),
            pv == views(pieces@),
            pv == split_spec(s@, '/'),
            absolute == is_absolute(s@),
            comp_views(out@) == comps_of_pieces(pv.take(k as int), absolute),
        decreases pieces@.len() - k,
    {
        let p = &pieces[k];
        proof {
            assert(pv.take(k + 1).drop_last() =~= pv.take(k as int));
            assert(pv.take(k + 1).last() == p@);
        }
        let ghost before = comp_views(out@);
        if p.len() == 0 {
        } else if p.len() == 1 && p[0] == '.' {
            proof {
                assert(p@ =~= seq!['.']);
            }
            if k == 0 && !absolute {
                out.push(Comp::CurDir);
                proof {
                    assert(comp_views(out@) =~= before.push(CompV::CurDir));
                }
            }
        } else if p.len() == 2 && p[0] == '.' && p[1] == '.' {
            proof {
                assert(p@ =~= seq!['.', '.']);
                assert(p@ != seq!['.']);
            }
            out.push(Comp::ParentDir);
            proof {
                assert(comp_views(out@) =~= before.push(CompV::ParentDir));
            }
        } else {
            proof {
                if p@ == seq!['.'] {
                    assert(p@.len() == 1 && p@[0] == '.');
                }
                if p@ == seq!['.', '.'] {
                    assert(p@.len() == 2 && p@[0] == '.' && p@[1] == '.');
                }
            }
            let name = p.clone();
            out.push(Comp::Normal(name));
            proof {
                assert(comp_views(out@) =~= before.push(CompV::Normal(p@)));
            }
        }
        k += 1;
    }
    proof {
        assert(pv.take(pv.len() as int) =~= pv);
    }
    (absolute, out)
}

/// The text of one component.
pub open spec fn comp_text(c: CompV) -> Seq<char> {
    match c {
        CompV::CurDir => seq!['.'],
        CompV::ParentDir => seq!['.', '.'],
        CompV::Normal(n) => n,
    }
}

/// Components joined by `/`.
pub open spec fn join_comps(cs: Seq<CompV>) -> Seq<char>
    decreases cs.len(),
{
    if cs.len() == 0 {
        Seq::empty()
    } else if cs.len() == 1 {
        comp_text(cs[0])
    } else {
        join_comps(cs.drop_last()) + seq!['/'] + comp_text(cs.last())
    }
}

/// The text of a path built from a root flag and components (as `PathBuf` writes it).
pub open spec fn render(absolute: bool, cs: Seq<CompV>) -> Seq<char> {
    if absolute { seq!['/'] + join_comps(cs) } else { join_comps(cs) }
}

fn push_comp_text(v: &mut Vec<char>, c: &Comp)
    ensures
        final(v)@ == old(v)@ + comp_text(c@),
{
    match c {
        Comp::CurDir => {
            v.push('.');
            proof { assert(v@ =~= old(v)@ + seq!['.']); }
        },
        Comp::ParentDir => {
            v.push('.');
            v.push('.');
            proof { assert(v@ =~= old(v)@ + seq!['.', '.']); }
        },
        Comp::Normal(n) => extend_chars(v, n.as_slice()),
    }
}

/// Writes a path from its root flag and components.
pub fn render_path(absolute: bool, cs: &Vec<Comp>) -> (r: Vec<char>)
    ensures
        r@ == render(absolute, comp_views(cs@)),
{
    let mut v: Vec<char> = Vec::new();
    if absolute {
        v.push('/');
    }
    let ghost start = v@;
    let mut k: usize = 0;
    proof {
        assert(comp_views(cs@).take(0) =~= Seq::<CompV>::empty());
        assert(v@ =~= start + join_comps(comp_views(cs@).take(0)));
    }
    while k < cs.len()
        invariant
            k <= cs@.len(),
            start == (if absolute { seq!['/'] } else { Seq::<char>::empty() }),
            v@ == start + join_comps(comp_views(cs@).take(k as int)),
        decreases cs@.len() - k,
    {
        let ghost cv = comp_views(cs@);
        proof {
            assert(cv.take(k + 1).drop_last() =~= cv.take(k as int));
            assert(cv.take(k + 1).last() == cs@[k as int]@);
        }
        if k > 0 {
            v.push('/');
        }
        push_comp_text(&mut v, &cs[k]);
        proof {
            if k == 0 {
                assert(cv.take(1) =~= seq![cs@[0]@]);
                assert(v@ =~= start + join_comps(cv.take(1)));
            } else {
                assert(v@ =~= start + join_comps(cv.take(k + 1)));
            }
        }
        k += 1;
    }
    proof {
        assert(comp_views(cs@).take(cs@.len() as int) =~= comp_views(cs@));
        assert(render(absolute, comp_views(cs@)) =~= start + join_comps(comp_views(cs@)));
    }
    v
}

/// The names left after resolving components lexically: `.` is skipped, `..` removes the
/// previous name (nothing at the start), and names are kept.
pub open spec fn resolve(cs: Seq<CompV>) -> Seq<CompV>
    decreases cs.len(),
{
    if cs.len() == 0 {
        Seq::empty()
    } else {
        let front = resolve(cs.drop_last());
        match cs.last() {
            CompV::CurDir => front,
            CompV::ParentDir => if front.len() > 0 { front.drop_last() } else { front },
            CompV::Normal(n) => front.push(CompV::Normal(n)),
        }
    }
}

fn resolve_comps(cs: &Vec<Comp>) -> (r: Vec<Comp>)
    ensures
        comp_views(r@) == resolve(comp_views(cs@)),
{
    let mut out: Vec<Comp> = Vec::new();
    let mut k: usize = 0;
    proof {
        assert(comp_views(cs@).take(0) =~= Seq::<CompV>::empty());
    }
    while k < cs.len()
        invariant
            k <= cs@.len(),
            comp_views(out@) == resolve(comp_views(cs@).take(k as int)),
        decreases cs@.len() - k,
    {
        let ghost cv = comp_views(cs@);
        let ghost before = comp_views(out@);
        proof {
            assert(cv.take(k + 1).drop_last() =~= cv.take(k as int));
            assert(cv.take(k + 1).last() == cs@[k as int]@);
        }
        match &cs[k] {
            Comp::CurDir => {},
            Comp::ParentDir => {
                if out.len() > 0 {
                    out.pop();
                    proof {
                        assert(comp_views(out@) =~= before.drop_last());
                    }
                }
            },
            Comp::Normal(n) => {
                out.push(Comp::Normal(n.clone()));
                proof {
                    assert(comp_views(out@) =~= before.push(CompV::Normal(n@)));
                }
            },
        }
        k += 1;
    }
    proof {
        assert(comp_views(cs@).take(cs@.len() as int) =~= comp_views(cs@));
    }
    out
}

/// A path normalized lexically: its root kept, its components resolved.
pub open spec fn normalize_spec(s: Seq<char>) -> Seq<char> {
    render(is_absolute(s), resolve(components(s)))
}

/// Normalizes a path lexically, without consulting the filesystem: `.` components are
/// dropped and each `..` removes the name before it.
pub fn normalize(path: &str) -> (r: String)
    ensures
        r@ == normalize_spec(path@),
{
    let s = chars_of(path);
    let (absolute, cs) = path_components(s.as_slice());
    let resolved = resolve_comps(&cs);
    let v = render_path(absolute, &resolved);
    string_of(v.as_slice())
}

/// The name `~` as a component.
pub open spec fn tilde() -> CompV {
    CompV::Normal(seq!['~'])
}

/// Whether a path's first component is the name `~`.
pub open spec fn tilde_led(s: Seq<char>) -> bool {
    !is_absolute(s) && components(s).len() > 0 && components(s)[0] == tilde()
}

/// A path with a leading `~` replaced by the home directory, then normalized; `None` when
/// it needs a home directory and there is none.
pub open spec fn expand_home_spec(s: Seq<char>, home: Option<Seq<char>>) -> Option<Seq<char>> {
    if tilde_led(s) {
        match home {
            None => None,
            Some(h) => Some(render(is_absolute(h), resolve(components(h) + components(s).skip(1)))),
        }
    } else {
        Some(normalize_spec(s))
    }
}

fn is_tilde_led(absolute: bool, cs: &Vec<Comp>) -> (r: bool)
    ensures
        r == (!absolute && comp_views(cs@).len() > 0 && comp_views(cs@)[0] == tilde()),
{
    if absolute || cs.len() == 0 {
        return false;
    }
    match &cs[0] {
        Comp::Normal(n) => {
            let r = n.len() == 1 && n[0] == '~';
            proof {
                if r {
                    assert(n@ =~= seq!['~']);
                } else if n@ == seq!['~'] {
                    assert(n@.len() == 1 && n@[0] == '~');
                }
            }
            r
        },
        _ => false,
    }
}

fn copy_comp(c: &Comp) -> (r: Comp)
    ensures
        r@ == c@,
{
    match c {
        Comp::CurDir => Comp::CurDir,
        Comp::ParentDir => Comp::ParentDir,
        Comp::Normal(n) => Comp::Normal(n.clone()),
    }
}

fn append_comps(dst: &mut Vec<Comp>, src: &Vec<Comp>, from: usize)
    requires
        from <= src@.len(),
    ensures
        comp_views(final(dst)@) == comp_views(old(dst)@) + comp_views(src@).skip(from as int),
{
    let ghost start = comp_views(dst@);
    let mut k: usize = from;
    proof {
        assert(comp_views(src@).subrange(from as int, from as int) =~= Seq::<CompV>::empty());
        assert(comp_views(dst@) =~= start + comp_views(src@).subrange(from as int, k as int));
    }
    while k < src.len()
        invariant
            from <= k <= src@.len(),
            comp_views(dst@) == start + comp_views(src@).subrange(from as int, k as int),
        decreases src@.len() - k,
    {
        let c = copy_comp(&src[k]);
        let ghost prev = dst@;
        dst.push(c);
        proof {
            assert(comp_views(dst@) =~= comp_views(prev).push(src@[k as int]@));
        }
        k += 1;
        proof {
            assert(comp_views(dst@) =~= start + comp_views(src@).subrange(from as int, k as int));
        }
    }
    proof {
        assert(comp_views(src@).subrange(from as int, src@.len() as int) =~= comp_views(src@).skip(from as int));
    }
}

/// The failure detail for a `~` path without a home directory.
pub open spec fn no_home_detail() -> Seq<char> {
    "cannot expand template path without a home directory"@
}

/// Replaces a leading `~` with the home directory and normalizes the path.
pub fn expand_home(path: &str, home: Option<&str>) -> (r: Result<String, RenderError>)
    ensures
        match r {
            Ok(p) => expand_home_spec(path@, match home { Some(h) => Some(h@), None => None }) == Some(p@),
            Err(e) => expand_home_spec(path@, match home { Some(h) => Some(h@), None => None }) is None
                && e is InvalidOperation && e->InvalidOperation_0@ == no_home_detail(),
        },
{
    let s = chars_of(path);
    let (absolute, cs) = path_components(s.as_slice());
    if is_tilde_led(absolute, &cs) {
        match home {
            None => {
                let v = chars_of("cannot expand template path without a home directory");
                Err(RenderError::InvalidOperation(string_of(v.as_slice())))
            },
            Some(h) => {
                let hs = chars_of(h);
                let (habs, mut joined) = path_components(hs.as_slice());
                append_comps(&mut joined, &cs, 1);
                let resolved = resolve_comps(&joined);
                let v = render_path(habs, &resolved);
                Ok(string_of(v.as_slice()))
            },
        }
    } else {
        let resolved = resolve_comps(&cs);
        let v = render_path(absolute, &resolved);
        Ok(string_of(v.as_slice()))
    }
}

/// The path an include names, seen from the template that includes it: an absolute or
/// `~` name is expanded (kept as written when it cannot be) and normalized; any other name
/// is joined to the including template's directory and normalized.
pub open spec fn include_path_spec(name: Seq<char>, parent: Seq<char>, home: Option<Seq<char>>) -> Seq<char> {
    if is_absolute(name) || tilde_led(name) {
        let p = match expand_home_spec(name, home) {
            Some(p) => p,
            None => name,
        };
        normalize_spec(p)
    } else {
        let pcs = components(parent);
        if pcs.len() == 0 {
            render(false, resolve(components(name)))
        } else {
            render(is_absolute(parent), resolve(pcs.drop_last() + components(name)))
        }
    }
}

/// Resolves the name of an included template against the template that includes it.
pub fn include_path(name: &str, parent: &str, home: Option<&str>) -> (r: String)
    ensures
        r@ == include_path_spec(name@, parent@, match home { Some(h) => Some(h@), None => None }),
{
    let n = chars_of(name);
    let (nabs, ncs) = path_components(n.as_slice());
    if nabs || is_tilde_led(nabs, &ncs) {
        let expanded = match expand_home(name, home) {
            Ok(p) => p,
            Err(_) => string_of(n.as_slice()),
        };
        normalize(expanded.as_str())
    } else {
        let p = chars_of(parent);
        let (pabs, pcs) = path_components(p.as_slice());
        if pcs.len() == 0 {
            let resolved = resolve_comps(&ncs);
            let v = render_path(false, &resolved);
            string_of(v.as_slice())
        } else {
            let mut dir: Vec<Comp> = Vec::new();
            append_comps(&mut dir, &pcs, 0);
            let ghost before = comp_views(dir@);
            dir.pop();
            proof {
                assert(comp_views(pcs@).skip(0) =~= comp_views(pcs@));
                assert(comp_views(dir@) =~= before.drop_last());
            }
            append_comps(&mut dir, &ncs, 0);
            proof {
                assert(comp_views(ncs@).skip(0) =~= comp_views(ncs@));
            }
            let resolved = resolve_comps(&dir);
            let v = render_path(pabs, &resolved);
            string_of(v.as_slice())
        }
    }
}

/// Components with a leading `.` removed.
pub open spec fn drop_cur(cs: Seq<CompV>) -> Seq<CompV> {
    if cs.len() > 0 && cs[0] is CurDir { cs.skip(1) } else { cs }
}

/// A path joined with a relative one (as `PathBuf::join` does): the argument alone onto an
/// empty path, else the base's root and components followed by the argument's, whose
/// leading `.` no longer leads.
pub open spec fn join_parts(base: (bool, Seq<CompV>), rest: Seq<CompV>) -> (bool, Seq<CompV>) {
    if !base.0 && base.1.len() == 0 {
        (false, rest)
    } else {
        (base.0, base.1 + drop_cur(rest))
    }
}

/// The path an external template setting names: `~` expands to the home directory, a
/// relative path is taken from the Zellij configuration directory (else `~/.config/zellij`).
pub open spec fn template_location(path: Seq<char>, home: Option<Seq<char>>, config_dir: Option<Seq<char>>) -> Result<(bool, Seq<CompV>), Seq<char>> {
    if tilde_led(path) {
        match home {
            None => Err(no_home_detail()),
            Some(h) => Ok(join_parts((is_absolute(h), components(h)), components(path).skip(1))),
        }
    } else if !is_absolute(path) {
        match config_dir {
            Some(c) => Ok(join_parts((is_absolute(c), components(c)), components(path))),
            None => match home {
                Some(h) => Ok(join_parts(
                    join_parts((is_absolute(h), components(h)), seq![CompV::Normal(".config"@), CompV::Normal("zellij"@)]),
                    components(path),
                )),
                None => Err("relative template_file requires ZELLIJ_CONFIG_DIR or HOME"@),
            },
        }
    } else {
        Ok((true, components(path)))
    }
}

/// The directory to mount for an external template, and the entry path to use inside the
/// mount (the file name under the mount's root); or why the setting cannot be used.
pub open spec fn prepare_spec(template_file: Option<Seq<char>>, home: Option<Seq<char>>, config_dir: Option<Seq<char>>) -> Result<(Seq<char>, Seq<char>), Seq<char>> {
    match template_file {
        None => Err("template_file is missing"@),
        Some(path) => match template_location(path, home, config_dir) {
            Err(e) => Err(e),
            Ok(loc) => {
                let (a, cs) = loc;
                if cs.len() == 0 || (!a && cs.len() == 1) {
                    Err("template_file has no parent directory: "@ + render(a, cs))
                } else {
                    match cs.last() {
                        CompV::Normal(n) => Ok((render(a, cs.drop_last()), seq!['/'] + n)),
                        _ => Err("template_file has no file name: "@ + render(a, cs)),
                    }
                }
            },
        },
    }
}

/// Where an external template lives: the host directory to mount, and the entry path
/// inside that mount.
#[derive(Clone, Debug, PartialEq, Eq)]
pub struct ExternalTemplate {
    pub host_folder: String,
    pub entry: String,
}

fn opt_view(v: Option<&str>) -> (r: Option<Vec<char>>)
    ensures
        match v {
            Some(s) => r matches Some(c) && c@ == s@,
            None => r is None,
        },
{
    match v {
        Some(s) => Some(chars_of(s)),
        None => None,
    }
}

fn join_parts_exec(base_abs: bool, base: Vec<Comp>, rest: &Vec<Comp>) -> (r: (bool, Vec<Comp>))
    ensures
        (r.0, comp_views(r.1@)) == join_parts((base_abs, comp_views(base@)), comp_views(rest@)),
{
    if !base_abs && base.len() == 0 {
        let mut out: Vec<Comp> = Vec::new();
        append_comps(&mut out, rest, 0);
        proof {
            assert(comp_views(rest@).skip(0) =~= comp_views(rest@));
            assert(comp_views(out@) =~= comp_views(rest@));
        }
        (false, out)
    } else {
        let mut out = base;
        let from: usize = if rest.len() > 0 && matches!(rest[0], Comp::CurDir) { 1 } else { 0 };
        append_comps(&mut out, rest, from);
        proof {
            if from == 0 {
                assert(comp_views(rest@).skip(0) =~= comp_views(rest@));
            }
        }
        (base_abs, out)
    }
}

fn locate_template(path: &[char], home: Option<&str>, config_dir: Option<&str>) -> (r: Result<(bool, Vec<Comp>), String>)
    ensures
        match r {
            Ok(loc) => template_location(
                path@,
                match home { Some(s) => Some(s@), None => None },
                match config_dir { Some(s) => Some(s@), None => None },
            ) == Ok::<(bool, Seq<CompV>), Seq<char>>((loc.0, comp_views(loc.1@))),
            Err(e) => template_location(
                path@,
                match home { Some(s) => Some(s@), None => None },
                match config_dir { Some(s) => Some(s@), None => None },
            ) == Err::<(bool, Seq<CompV>), Seq<char>>(e@),
        },
{
    let (pabs, pcs) = path_components(path);
    let home_chars = opt_view(home);
    let loc = if is_tilde_led(pabs, &pcs) {
        match home_chars {
            None => {
                let v = chars_of("cannot expand template path without a home directory");
                return Err(string_of(v.as_slice()));
            },
            Some(h) => {
                let (habs, hcs) = path_components(h.as_slice());
                let mut rest: Vec<Comp> = Vec::new();
                append_comps(&mut rest, &pcs, 1);
                join_parts_exec(habs, hcs, &rest)
            },
        }
    } else if !pabs {
        match config_dir {
            Some(c) => {
                let cc = chars_of(c);
                let (cabs, ccs) = path_components(cc.as_slice());
                join_parts_exec(cabs, ccs, &pcs)
            },
            None => match home_chars {
                Some(h) => {
                    let (habs, hcs) = path_components(h.as_slice());
                    let tail: Vec<Comp> = vec![
                        Comp::Normal(chars_of(".config")),
                        Comp::Normal(chars_of("zellij")),
                    ];
                    proof {
                        assert(comp_views(tail@) =~= seq![CompV::Normal(".config"@), CompV::Normal("zellij"@)]);
                    }
                    let (babs, bcs) = join_parts_exec(habs, hcs, &tail);
                    join_parts_exec(babs, bcs, &pcs)
                },
                None => {
                    let v = chars_of("relative template_file requires ZELLIJ_CONFIG_DIR or HOME");
                    return Err(string_of(v.as_slice()));
                },
            },
        }
    } else {
        (true, pcs)
    };
    Ok(loc)
}

/// Splits an external template setting into the host directory to mount and the entry
/// path inside the mount (the template's file name under the mount's root).
pub fn prepare_external_template(template_file: Option<&str>, home: Option<&str>, config_dir: Option<&str>) -> (r: Result<ExternalTemplate, String>)
    ensures
        match r {
            Ok(t) => prepare_spec(
                match template_file { Some(s) => Some(s@), None => None },
                match home { Some(s) => Some(s@), None => None },
                match config_dir { Some(s) => Some(s@), None => None },
            ) == Ok::<(Seq<char>, Seq<char>), Seq<char>>((t.host_folder@, t.entry@)),
            Err(e) => prepare_spec(
                match template_file { Some(s) => Some(s@), None => None },
                match home { Some(s) => Some(s@), None => None },
                match config_dir { Some(s) => Some(s@), None => None },
            ) == Err::<(Seq<char>, Seq<char>), Seq<char>>(e@),
        },
{
    let path = match template_file {
        None => return Err(string_of(chars_of("template_file is missing").as_slice())),
        Some(p) => chars_of(p),
    };
    let (a, cs) = match locate_template(path.as_slice(), home, config_dir) {
        Ok(loc) => loc,
        Err(e) => return Err(e),
    };
    if cs.len() == 0 || (!a && cs.len() == 1) {
        let mut v = chars_of("template_file has no parent directory: ");
        let shown = render_path(a, &cs);
        extend_chars(&mut v, shown.as_slice());
        return Err(string_of(v.as_slice()));
    }
    let last = cs.len() - 1;
    match &cs[last] {
        Comp::Normal(n) => {
            let mut entry: Vec<char> = vec!['/'];
            extend_chars(&mut entry, n.as_slice());
            let mut parent: Vec<Comp> = Vec::new();
            append_comps(&mut parent, &cs, 0);
            let ghost all = comp_views(parent@);
            parent.pop();
            proof {
                assert(comp_views(cs@).skip(0) =~= comp_views(cs@));
                assert(comp_views(parent@) =~= comp_views(cs@).drop_last());
                assert(entry@ =~= seq!['/'] + n@);
            }
            let folder = render_path(a, &parent);
            Ok(ExternalTemplate { host_folder: string_of(folder.as_slice()), entry: string_of(entry.as_slice()) })
        },
        _ => {
            let mut v = chars_of("template_file has no file name: ");
            let shown = render_path(a, &cs);
            extend_chars(&mut v, shown.as_slice());
            Err(string_of(v.as_slice()))
        },
    }
}

/// The entry path an external template setting names, before home expansion: a relative
/// path that does not start with `~` is taken from the Zellij configuration directory
/// (else `~/.config/zellij` under the home directory); any other path is kept as written.
pub open spec fn external_entry_spec(path: Seq<char>, home: Option<Seq<char>>, config_dir: Option<Seq<char>>) -> Result<Seq<char>, Seq<char>> {
    if is_absolute(path) || tilde_led(path) {
        Ok(path)
    } else {
        match config_dir {
            Some(c) => {
                let j = join_parts((is_absolute(c), components(c)), components(path));
                Ok(render(j.0, j.1))
            },
            None => match home {
                Some(h) => {
                    let j = join_parts(
                        join_parts((is_absolute(h), components(h)), seq![CompV::Normal(".config"@), CompV::Normal("zellij"@)]),
                        components(path),
                    );
                    Ok(render(j.0, j.1))
                },
                None => Err("relative template_file requires ZELLIJ_CONFIG_DIR or HOME"@),
            },
        }
    }
}

/// Anchors a relative external template path to the Zellij configuration directory.
pub fn resolve_external_path(path: &str, home: Option<&str>, config_dir: Option<&str>) -> (r: Result<String, RenderError>)
    ensures
        match r {
            Ok(p) => external_entry_spec(
                path@,
                match home { Some(s) => Some(s@), None => None },
                match config_dir { Some(s) => Some(s@), None => None },
            ) == Ok::<Seq<char>, Seq<char>>(p@),
            Err(e) => e is InvalidOperation && external_entry_spec(
                path@,
                match home { Some(s) => Some(s@), None => None },
                match config_dir { Some(s) => Some(s@), None => None },
            ) == Err::<Seq<char>, Seq<char>>(e->InvalidOperation_0@),
        },
{
    let p = chars_of(path);
    let (pabs, pcs) = path_components(p.as_slice());
    if pabs || is_tilde_led(pabs, &pcs) {
        return Ok(string_of(p.as_slice()));
    }
    let (a, cs) = match config_dir {
        Some(c) => {
            let cc = chars_of(c);
            let (cabs, ccs) = path_components(cc.as_slice());
            join_parts_exec(cabs, ccs, &pcs)
        },
        None => match home {
            Some(h) => {
                let hc = chars_of(h);
                let (habs, hcs) = path_components(hc.as_slice());
                let tail: Vec<Comp> = vec![Comp::Normal(chars_of(".config")), Comp::Normal(chars_of("zellij"))];
                proof {
                    assert(comp_views(tail@) =~= seq![CompV::Normal(".config"@), CompV::Normal("zellij"@)]);
                }
                let (babs, bcs) = join_parts_exec(habs, hcs, &tail);
                join_parts_exec(babs, bcs, &pcs)
            },
            None => {
                let v = chars_of("relative template_file requires ZELLIJ_CONFIG_DIR or HOME");
                return Err(RenderError::InvalidOperation(string_of(v.as_slice())));
            },
        },
    };
    let v = render_path(a, &cs);
    Ok(string_of(v.as_slice()))
}

} // verus!
