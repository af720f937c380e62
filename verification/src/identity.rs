//! Item identities: the def path of a scanned item, the owner path of an
//! implementation, and evidence binders resolved against the module that wrote them.
//!
//! Paths and types are read with `syn`: implementation headers arrive parsed as
//! [`TypeSyntax`] and [`PathSyntax`], and binder text is parsed here.
use vstd::prelude::*;

use quote::ToTokens;
use syn::{parse_str, Path, Type, TypePath};

use crate::docs::{clean_signature, starts_at, tidy_tokens};
use crate::text::{append, chars_of, push_char, same_string, string_lit};

verus! {

// ---------------------------------------------------------------------------
// Joining.

/// The strings of `s` with `sep` between each two.
pub open spec fn join(s: Seq<Seq<char>>, sep: Seq<char>) -> Seq<char>
    decreases s.len(),
{
    if s.len() == 0 {
        Seq::empty()
    } else if s.len() == 1 {
        s[0]
    } else {
        join(s.drop_last(), sep) + sep + s.last()
    }
}

/// Joins strings with `sep` between each two.
pub fn join_strings(parts: &Vec<String>, sep: &str) -> (r: String)
    ensures
        r@ == join(parts.deep_view(), sep@),
{
    let ghost pv = parts.deep_view();
    let mut out = String::new();
    let mut k: usize = 0;
    while k < parts.len()
        invariant
            k <= parts.len(),
            pv == parts.deep_view(),
            out@ == join(pv.take(k as int), sep@),
        decreases parts.len() - k,
    {
        if k > 0 {
            append(&mut out, sep);
        }
        append(&mut out, parts[k].as_str());
        proof {
            let next = pv.take(k + 1);
            assert(next.drop_last() =~= pv.take(k as int));
            if k == 0 {
                assert(out@ =~= next[0]);
            } else {
                assert(out@ =~= join(next.drop_last(), sep@) + sep@ + next.last());
            }
        }
        k = k + 1;
    }
    assert(pv.take(k as int) =~= pv);
    out
}

// ---------------------------------------------------------------------------
// Def paths.

/// The modules of `m[..n]` joined by `::`, skipping the separator while the path is
/// still empty.
pub open spec fn module_prefix(m: Seq<Seq<char>>, n: nat) -> Seq<char>
    decreases n,
{
    if n == 0 || n > m.len() {
        Seq::empty()
    } else {
        let p = module_prefix(m, (n - 1) as nat);
        if p.len() == 0 {
            m[n - 1]
        } else {
            p + "::"@ + m[n - 1]
        }
    }
}

/// The def path of item `name` declared in the module at `modules`.
pub open spec fn item_path_spec(modules: Seq<Seq<char>>, name: Seq<char>) -> Seq<char> {
    let p = module_prefix(modules, modules.len());
    if p.len() == 0 {
        name
    } else {
        p + "::"@ + name
    }
}

/// Builds the fully qualified path of item `name` declared in the module at
/// `modules`.
pub fn item_path(modules: &Vec<String>, name: &str) -> (r: String)
    ensures
        r@ == item_path_spec(modules.deep_view(), name@),
{
    proof {
        reveal_strlit("::");
    }
    let ghost m = modules.deep_view();
    let mut path = String::new();
    let mut k: usize = 0;
    while k < modules.len()
        invariant
            k <= modules.len(),
            m == modules.deep_view(),
            path@ == module_prefix(m, k as nat),
        decreases modules.len() - k,
    {
        if !path.as_str().is_empty() {
            append(&mut path, "::");
        }
        append(&mut path, modules[k].as_str());
        k = k + 1;
    }
    if !path.as_str().is_empty() {
        append(&mut path, "::");
    }
    append(&mut path, name);
    path
}

// ---------------------------------------------------------------------------
// Parsed paths and types.

/// One segment of a parsed path: its identifier (`.0`), and the whole segment, generic
/// arguments included, as the token printer writes it (`.1`).
#[derive(Debug)]
pub struct SegmentSyntax(pub String, pub String);

/// A parsed path: whether it starts with `::`, and its segments.
#[derive(Debug)]
pub struct PathSyntax {
    pub leading_colon: bool,
    pub segments: Vec<SegmentSyntax>,
}

/// A parsed type: for a path type its path and whether it has a qualified self
/// (`<T as Trait>::Assoc`), and the whole type as the token printer writes it.
#[derive(Debug)]
pub struct TypeSyntax {
    pub path: Option<PathSyntax>,
    pub qualified: bool,
    pub printed: String,
}

/// The `<T as Trait>` head of a qualified path: the type `T`, how many segments of the
/// path belong to the trait, and whether `as Trait` is written at all.
#[derive(Debug)]
pub struct QualifiedSelf {
    pub ty: TypeSyntax,
    pub position: usize,
    pub has_as: bool,
}

/// A parsed type path such as `a::b`, `<T>::f` or `<T as a::Trait>::f`.
#[derive(Debug)]
pub struct TypePathSyntax {
    pub qself: Option<QualifiedSelf>,
    pub path: PathSyntax,
}

/// Mathematical value of a [`PathSyntax`]: each segment as (identifier, printed).
pub struct PathV {
    pub leading_colon: bool,
    pub segments: Seq<(Seq<char>, Seq<char>)>,
}

/// Mathematical value of a [`TypeSyntax`].
pub struct TypeV {
    pub path: Option<PathV>,
    pub qualified: bool,
    pub printed: Seq<char>,
}

/// Mathematical value of a [`QualifiedSelf`].
pub struct QualifiedSelfV {
    pub ty: TypeV,
    pub position: nat,
    pub has_as: bool,
}

/// Mathematical value of a [`TypePathSyntax`].
pub struct TypePathV {
    pub qself: Option<QualifiedSelfV>,
    pub path: PathV,
}

impl DeepView for PathSyntax {
    type V = PathV;

    open spec fn deep_view(&self) -> PathV {
        PathV {
            leading_colon: self.leading_colon,
            segments: Seq::new(
                self.segments@.len(),
                |k: int| (self.segments@[k].0@, self.segments@[k].1@),
            ),
        }
    }
}

impl DeepView for TypeSyntax {
    type V = TypeV;

    open spec fn deep_view(&self) -> TypeV {
        TypeV {
            path: match self.path {
                Some(p) => Some(p.deep_view()),
                None => None,
            },
            qualified: self.qualified,
            printed: self.printed@,
        }
    }
}

impl DeepView for QualifiedSelf {
    type V = QualifiedSelfV;

    open spec fn deep_view(&self) -> QualifiedSelfV {
        QualifiedSelfV { ty: self.ty.deep_view(), position: self.position as nat, has_as: self.has_as }
    }
}

impl DeepView for TypePathSyntax {
    type V = TypePathV;

    open spec fn deep_view(&self) -> TypePathV {
        TypePathV {
            qself: match self.qself {
                Some(q) => Some(q.deep_view()),
                None => None,
            },
            path: self.path.deep_view(),
        }
    }
}

/// What `syn` reads from `raw` as a `syn::TypePath`, each segment and the qualified
/// self type printed by `quote`; `None` where `raw` is not a type path.
pub uninterp spec fn parsed_type_path(raw: Seq<char>) -> Option<TypePathV>;

/// Parses `raw` with `syn::parse_str::<syn::TypePath>` and converts the result: each
/// path segment becomes its identifier and its `to_token_stream()` text, and the type of
/// a qualified self its path (when it is a plain path type) and its printed text. The
/// contract claims only that the result is a function of `raw`, named
/// [`parsed_type_path`].
#[verifier::external_body]
fn parse_type_path(raw: &str) -> (r: Option<TypePathSyntax>)
    ensures
        r.deep_view() == parsed_type_path(raw@),
{
    let path_of = |p: &Path| PathSyntax {
        leading_colon: p.leading_colon.is_some(),
        segments: p.segments.iter().map(|s| SegmentSyntax(s.ident.to_string(), s.to_token_stream().to_string())).collect()
    };
    let parsed: TypePath = parse_str(raw).ok()?;
    Some(TypePathSyntax {
        qself: parsed.qself.map(|q| {
            let (path, qualified) = match &*q.ty { Type::Path(t) => (Some(path_of(&t.path)), t.qself.is_some()), _ => (None, false) };
            QualifiedSelf { ty: TypeSyntax { path, qualified, printed: q.ty.to_token_stream().to_string() }, position: q.position, has_as: q.as_token.is_some() }
        }),
        path: path_of(&parsed.path)
    })
}

// ---------------------------------------------------------------------------
// Normalizing paths and types.

/// The identifiers of a path's segments.
pub open spec fn seg_names(p: PathV) -> Seq<Seq<char>> {
    Seq::new(p.segments.len(), |k: int| p.segments[k].0)
}

/// A path's printed segments with token spacing tidied.
pub open spec fn seg_texts(p: PathV) -> Seq<Seq<char>> {
    Seq::new(p.segments.len(), |k: int| tidy_tokens(p.segments[k].1))
}

/// How many of `names` from `k` on are `super` before the first that is not.
pub open spec fn super_count(names: Seq<Seq<char>>, k: int) -> int
    decreases names.len() - k,
{
    if 0 <= k < names.len() && names[k] == "super"@ {
        1 + super_count(names, k + 1)
    } else {
        0
    }
}

proof fn lemma_super_count_bound(names: Seq<Seq<char>>, k: int)
    requires
        0 <= k <= names.len(),
    ensures
        0 <= super_count(names, k) <= names.len() - k,
    decreases names.len() - k,
{
    if k < names.len() {
        lemma_super_count_bound(names, k + 1);
    }
}

/// The path `p` made absolute against the module at `m`: a path with a leading `::`
/// is kept; otherwise `crate`, `self` and `super` are resolved, a path that starts with
/// the crate's name is kept, and a bare path is qualified with the module when
/// `qualify_bare` is set.
pub open spec fn normalize_path_spec(p: PathV, m: Seq<Seq<char>>, qualify_bare: bool) -> Seq<char> {
    if p.segments.len() == 0 {
        Seq::empty()
    } else if p.leading_colon {
        join(seg_texts(p), "::"@)
    } else {
        join(
            path_parts(p.segments[0].0, seg_texts(p), m, qualify_bare, super_count(seg_names(p), 0)),
            "::"@,
        )
    }
}

/// The type `t` as an identity: a path type without a qualified self is made absolute
/// against the module at `m`; any other type is its printed text with tidied spacing.
pub open spec fn normalize_type_spec(t: TypeV, m: Seq<Seq<char>>) -> Seq<char> {
    match t.path {
        Some(p) => if t.qualified {
            tidy_tokens(t.printed)
        } else {
            normalize_path_spec(p, m, true)
        },
        None => tidy_tokens(t.printed),
    }
}

fn seg_texts_of(p: &PathSyntax) -> (r: Vec<String>)
    ensures
        r.deep_view() == seg_texts(p.deep_view()),
{
    let ghost pv = p.deep_view();
    let mut r: Vec<String> = Vec::new();
    let mut k: usize = 0;
    while k < p.segments.len()
        invariant
            k <= p.segments@.len(),
            pv == p.deep_view(),
            r.deep_view() == seg_texts(pv).take(k as int),
        decreases p.segments@.len() - k,
    {
        let text = clean_signature(p.segments[k].1.as_str());
        assert(pv.segments[k as int].1 == p.segments@[k as int].1@);
        assert(text@ == seg_texts(pv)[k as int]);
        let ghost before = r.deep_view();
        r.push(text);
        assert(r.deep_view() =~= before.push(text@));
        assert(r.deep_view() =~= seg_texts(pv).take(k + 1));
        k = k + 1;
    }
    assert(seg_texts(pv).take(k as int) =~= seg_texts(pv));
    r
}

fn super_count_of(p: &PathSyntax) -> (c: usize)
    ensures
        c as int == super_count(seg_names(p.deep_view()), 0),
        c <= p.segments@.len(),
{
    let ghost names = seg_names(p.deep_view());
    let mut k: usize = 0;
    while k < p.segments.len()
        invariant
            k <= p.segments@.len(),
            names == seg_names(p.deep_view()),
            super_count(names, 0) == k + super_count(names, k as int),
        decreases p.segments@.len() - k,
    {
        proof {
            reveal_strlit("super");
        }
        if !same_string(&p.segments[k].0, "super") {
            return k;
        }
        k = k + 1;
    }
    k
}

/// Makes the path `p` absolute against the module at `modules`; see
/// [`normalize_path_spec`].
pub fn normalize_path(p: &PathSyntax, modules: &Vec<String>, qualify_bare: bool) -> (r: String)
    ensures
        r@ == normalize_path_spec(p.deep_view(), modules.deep_view(), qualify_bare),
{
    let texts = seg_texts_of(p);
    if p.segments.len() == 0 {
        return String::new();
    }
    if p.leading_colon {
        return join_strings(&texts, "::");
    }
    let c = super_count_of(p);
    assert(texts.deep_view().len() == p.segments@.len());
    let parts = path_parts_at(&p.segments[0].0, &texts, modules, qualify_bare, c);
    join_strings(&parts, "::")
}

/// Makes the type `t` an identity against the module at `modules`; see
/// [`normalize_type_spec`].
pub fn normalize_type(t: &TypeSyntax, modules: &Vec<String>) -> (r: String)
    ensures
        r@ == normalize_type_spec(t.deep_view(), modules.deep_view()),
{
    match &t.path {
        Some(p) => if t.qualified {
            clean_signature(t.printed.as_str())
        } else {
            normalize_path(p, modules, true)
        },
        None => clean_signature(t.printed.as_str()),
    }
}

fn path_prefix(p: &PathSyntax, n: usize) -> (r: PathSyntax)
    requires
        n <= p.segments@.len(),
    ensures
        r.deep_view() == (PathV {
            leading_colon: p.leading_colon,
            segments: p.deep_view().segments.take(n as int),
        }),
{
    let ghost pv = p.deep_view();
    let mut segments: Vec<SegmentSyntax> = Vec::new();
    let mut k: usize = 0;
    while k < n
        invariant
            k <= n <= p.segments@.len(),
            pv == p.deep_view(),
            segments@.len() == k,
            forall|i: int| 0 <= i < k ==> (#[trigger] segments@[i]).0@ == pv.segments[i].0
                && segments@[i].1@ == pv.segments[i].1,
        decreases n - k,
    {
        let s = &p.segments[k];
        segments.push(SegmentSyntax(s.0.clone(), s.1.clone()));
        k = k + 1;
    }
    let r = PathSyntax { leading_colon: p.leading_colon, segments };
    assert(r.deep_view().segments =~= pv.segments.take(n as int));
    r
}


/// `prefix[..take]` followed by `rest[skip..]`.
fn spliced(prefix: &Vec<String>, take: usize, rest: &Vec<String>, skip: usize) -> (r: Vec<String>)
    requires
        take <= prefix@.len(),
        skip <= rest@.len(),
    ensures
        r.deep_view() == prefix.deep_view().take(take as int) + rest.deep_view().skip(skip as int),
{
    let ghost want = prefix.deep_view().take(take as int) + rest.deep_view().skip(skip as int);
    let mut r: Vec<String> = Vec::new();
    let mut k: usize = 0;
    while k < take
        invariant
            k <= take <= prefix@.len(),
            want == prefix.deep_view().take(take as int) + rest.deep_view().skip(skip as int),
            r@.len() == k,
            forall|x: int| 0 <= x < k ==> #[trigger] r@[x]@ == want[x],
        decreases take - k,
    {
        r.push(prefix[k].clone());
        k = k + 1;
    }
    let mut j = skip;
    while j < rest.len()
        invariant
            skip <= j <= rest@.len(),
            take <= prefix@.len(),
            want == prefix.deep_view().take(take as int) + rest.deep_view().skip(skip as int),
            r@.len() == take + (j - skip),
            forall|x: int| 0 <= x < r@.len() ==> #[trigger] r@[x]@ == want[x],
        decreases rest.len() - j,
    {
        r.push(rest[j].clone());
        j = j + 1;
    }
    assert(r.deep_view() =~= want);
    r
}

/// The segments of a relative path with the module prefix its first segment calls for:
/// `first` names the first segment, `c` counts the leading `super` segments.
pub open spec fn path_parts(first: Seq<char>, texts: Seq<Seq<char>>, m: Seq<Seq<char>>, qualify_bare: bool, c: int) -> Seq<Seq<char>> {
    if first == "crate"@ {
        m.take(if m.len() > 0 {
            1
        } else {
            0
        }) + texts.skip(1)
    } else if first == "self"@ {
        m + texts.skip(1)
    } else if first == "super"@ {
        let keep = if m.len() >= c {
            m.len() - c
        } else {
            0
        };
        m.take(keep) + texts.skip(c)
    } else if m.len() > 0 && first == m[0] {
        texts
    } else if qualify_bare {
        m + texts
    } else {
        texts
    }
}

fn path_parts_at(first: &String, texts: &Vec<String>, m: &Vec<String>, qualify_bare: bool, c: usize) -> (r: Vec<String>)
    requires
        texts@.len() > 0,
        c <= texts@.len(),
    ensures
        r.deep_view() == path_parts(first@, texts.deep_view(), m.deep_view(), qualify_bare, c as int),
{
    proof {
        reveal_strlit("crate");
        reveal_strlit("self");
        reveal_strlit("super");
        let mv = m.deep_view();
        assert(mv.take(mv.len() as int) =~= mv);
        assert(mv.take(0) =~= Seq::<Seq<char>>::empty());
        assert(texts.deep_view().skip(0) =~= texts.deep_view());
        assert(Seq::<Seq<char>>::empty() + texts.deep_view() =~= texts.deep_view());
    }
    if same_string(first, "crate") {
        let one: usize = if m.len() > 0 {
            1
        } else {
            0
        };
        spliced(m, one, texts, 1)
    } else if same_string(first, "self") {
        spliced(m, m.len(), texts, 1)
    } else if same_string(first, "super") {
        let keep = if m.len() >= c {
            m.len() - c
        } else {
            0
        };
        spliced(m, keep, texts, c)
    } else if m.len() > 0 && *first == m[0] {
        spliced(m, 0, texts, 0)
    } else if qualify_bare {
        spliced(m, m.len(), texts, 0)
    } else {
        spliced(m, 0, texts, 0)
    }
}


// ---------------------------------------------------------------------------
// Replacing the first occurrence.

/// `s` with its first occurrence of the non-empty `from` replaced by `to`
/// (`str::replacen` with a count of one).
pub open spec fn replace_first(s: Seq<char>, from: Seq<char>, to: Seq<char>) -> Seq<char>
    decreases s.len(),
{
    if from.len() == 0 || s.len() == 0 {
        s
    } else if starts_at(s, 0, from) {
        to + s.skip(from.len() as int)
    } else {
        seq![s[0]] + replace_first(s.skip(1), from, to)
    }
}

fn replace_first_text(s: &str, from: &str, to: &str) -> (r: String)
    requires
        from@.len() > 0,
    ensures
        r@ == replace_first(s@, from@, to@),
{
    let sv = chars_of(s);
    let fv = chars_of(from);
    let mut out = String::new();
    let mut i: usize = 0;
    assert(s@.skip(0) =~= s@);
    while i < sv.len()
        invariant
            i <= sv@.len(),
            sv@ == s@,
            fv@ == from@,
            from@.len() > 0,
            out@ + replace_first(s@.skip(i as int), from@, to@) == replace_first(s@, from@, to@),
        decreases sv@.len() - i,
    {
        let ghost rest = s@.skip(i as int);
        if crate::docs::occurs_at(&sv, i, &fv) {
            proof {
                assert(rest.subrange(0, from@.len() as int) =~= s@.subrange(
                    i as int,
                    i + from@.len(),
                ));
                assert(rest.skip(from@.len() as int) =~= s@.skip(i + from@.len()));
            }
            append(&mut out, to);
            let mut k = i + fv.len();
            let ghost head = out@;
            while k < sv.len()
                invariant
                    i + from@.len() <= k <= sv@.len(),
                    sv@ == s@,
                    out@ == head + s@.subrange(i + from@.len(), k as int),
                decreases sv@.len() - k,
            {
                push_char(&mut out, sv[k]);
                assert(out@ =~= head + s@.subrange(i + from@.len(), k + 1));
                k = k + 1;
            }
            proof {
                assert(s@.subrange(i + from@.len(), k as int) =~= s@.skip(i + from@.len()));
            }
            return out;
        } else {
            proof {
                if rest.len() >= from@.len() {
                    assert(rest.subrange(0, from@.len() as int) =~= s@.subrange(
                        i as int,
                        i + from@.len(),
                    ));
                }
                assert(rest.skip(1) =~= s@.skip(i + 1));
            }
            let ghost before = out@;
            push_char(&mut out, sv[i]);
            i = i + 1;
            proof {
                assert(before + (seq![rest[0]] + replace_first(s@.skip(i as int), from@, to@))
                    =~= out@ + replace_first(s@.skip(i as int), from@, to@));
            }
        }
    }
    proof {
        assert(s@.skip(i as int) =~= Seq::<char>::empty());
        assert(out@ + Seq::<char>::empty() =~= out@);
    }
    out
}


// ---------------------------------------------------------------------------
// Evidence binders.

/// A parsed binder made absolute against the module at `m` of crate `crate_name`:
/// `<T as Trait>::rest` keeps its shape with `T` and `Trait` resolved (and a remaining
/// `crate::` in the trait replaced by the crate's name), `<T>::rest` resolves `T`, and a
/// plain path is qualified against the module.
pub open spec fn binder_identity(b: TypePathV, m: Seq<Seq<char>>, crate_name: Seq<char>) -> Seq<char> {
    match b.qself {
        None => normalize_path_spec(b.path, m, true),
        Some(q) => {
            let n = b.path.segments.len() as int;
            let pos = if q.position <= n {
                q.position as int
            } else {
                n
            };
            let self_type = normalize_type_spec(q.ty, m);
            let suffix = join(seg_texts(b.path).skip(pos), "::"@);
            if q.has_as {
                let trait_path = PathV {
                    leading_colon: b.path.leading_colon,
                    segments: b.path.segments.take(pos),
                };
                let tr = replace_first(
                    normalize_path_spec(trait_path, m, false),
                    "crate::"@,
                    crate_name + "::"@,
                );
                "<"@ + self_type + " as "@ + tr + ">::"@ + suffix
            } else {
                "<"@ + self_type + ">::"@ + suffix
            }
        },
    }
}

/// An evidence binder or span entry made absolute against the module at `m` of crate
/// `crate_name`. Text that does not parse as a type path is kept as written.
pub open spec fn normalized_binder(raw: Seq<char>, m: Seq<Seq<char>>, crate_name: Seq<char>) -> Seq<char> {
    match parsed_type_path(raw) {
        Some(b) => binder_identity(b, m, crate_name),
        None => raw,
    }
}

/// Makes a parsed evidence binder absolute against the module at `modules` of crate
/// `crate_name`; see [`binder_identity`].
pub fn binder_path(b: &TypePathSyntax, modules: &Vec<String>, crate_name: &str) -> (r: String)
    ensures
        r@ == binder_identity(b.deep_view(), modules.deep_view(), crate_name@),
{
    proof {
        reveal_strlit("crate::");
        reveal_strlit("<");
        reveal_strlit(" as ");
        reveal_strlit(">::");
        reveal_strlit("::");
    }
    let q = match &b.qself {
        None => return normalize_path(&b.path, modules, true),
        Some(q) => q,
    };
    let ghost bv = b.deep_view();
    let n = b.path.segments.len();
    let pos = if q.position <= n {
        q.position
    } else {
        n
    };
    let self_type = normalize_type(&q.ty, modules);
    let texts = seg_texts_of(&b.path);
    assert(texts@.len() == texts.deep_view().len());
    assert(texts@.len() == n);
    let mut rest: Vec<String> = Vec::new();
    let mut k: usize = pos;
    while k < texts.len()
        invariant
            pos <= k <= texts@.len(),
            texts@.len() == n,
            rest.deep_view() == texts.deep_view().subrange(pos as int, k as int),
        decreases texts@.len() - k,
    {
        let t = texts[k].clone();
        assert(t@ == texts.deep_view()[k as int]);
        let ghost before = rest.deep_view();
        rest.push(t);
        assert(rest.deep_view() =~= before.push(t@));
        assert(rest.deep_view() =~= texts.deep_view().subrange(pos as int, k + 1));
        k = k + 1;
    }
    assert(rest.deep_view() =~= seg_texts(bv.path).skip(pos as int));
    let suffix = join_strings(&rest, "::");
    let mut out = string_lit("<");
    append(&mut out, self_type.as_str());
    if q.has_as {
        let trait_path = normalize_path(&path_prefix(&b.path, pos), modules, false);
        let mut with_crate = string_lit(crate_name);
        append(&mut with_crate, "::");
        let trait_path = replace_first_text(trait_path.as_str(), "crate::", with_crate.as_str());
        append(&mut out, " as ");
        append(&mut out, trait_path.as_str());
    }
    append(&mut out, ">::");
    append(&mut out, suffix.as_str());
    out
}

/// Makes an evidence binder or span entry absolute against the module at `modules`
/// of crate `crate_name`: the text is parsed as a type path and resolved with
/// [`binder_path`]; text that does not parse is kept as written.
pub fn normalize_binder(raw: &str, modules: &Vec<String>, crate_name: &str) -> (r: String)
    ensures
        r@ == normalized_binder(raw@, modules.deep_view(), crate_name@),
{
    match parse_type_path(raw) {
        Some(b) => binder_path(&b, modules, crate_name),
        None => string_lit(raw),
    }
}

// ---------------------------------------------------------------------------
// Implementation owners.

/// The owner of the methods of an implementation, and for a trait implementation the
/// implemented type as an alternate owner: `<Type as Trait>` and `Type`. `None` where the
/// implemented type normalizes to nothing.
pub open spec fn impl_owner_spec(self_ty: TypeV, trait_path: Option<PathV>, m: Seq<Seq<char>>) -> Option<(Seq<char>, Option<Seq<char>>)> {
    let self_type = normalize_type_spec(self_ty, m);
    if self_type.len() == 0 {
        None
    } else {
        match trait_path {
            None => Some((self_type, None)),
            Some(p) => Some(
                ("<"@ + self_type + " as "@ + normalize_path_spec(p, m, false) + ">"@, Some(self_type)),
            ),
        }
    }
}

/// Derives the canonical owner path, and for a trait implementation the alternate
/// owner, of an implementation of `self_ty` (for `trait_path`) declared in the module
/// at `modules`.
pub fn impl_owner_paths(self_ty: &TypeSyntax, trait_path: &Option<PathSyntax>, modules: &Vec<String>) -> (r: Option<(String, Option<String>)>)
    ensures
        r.deep_view() == impl_owner_spec(self_ty.deep_view(), trait_path.deep_view(), modules.deep_view()),
{
    proof {
        reveal_strlit("<");
        reveal_strlit(" as ");
        reveal_strlit(">");
    }
    let self_type = normalize_type(self_ty, modules);
    if self_type.as_str().is_empty() {
        return None;
    }
    match trait_path {
        None => Some((self_type, None)),
        Some(p) => {
            let trait_text = normalize_path(p, modules, false);
            let mut owner = string_lit("<");
            append(&mut owner, self_type.as_str());
            append(&mut owner, " as ");
            append(&mut owner, trait_text.as_str());
            append(&mut owner, ">");
            Some((owner, Some(self_type)))
        },
    }
}

/// Implementations of different traits for one type own their methods under
/// different paths, so separate trait implementations never collapse onto one item.
pub proof fn lemma_distinct_trait_owners(self_ty: TypeV, t1: PathV, t2: PathV, m: Seq<Seq<char>>)
    requires
        normalize_path_spec(t1, m, false) != normalize_path_spec(t2, m, false),
        impl_owner_spec(self_ty, Some(t1), m) is Some,
    ensures
        impl_owner_spec(self_ty, Some(t2), m) is Some,
        impl_owner_spec(self_ty, Some(t1), m)->Some_0.0 != impl_owner_spec(self_ty, Some(t2), m)->Some_0.0,
{
    let s = normalize_type_spec(self_ty, m);
    let a = "<"@ + s + " as "@;
    let x = normalize_path_spec(t1, m, false);
    let y = normalize_path_spec(t2, m, false);
    let o1 = a + x + ">"@;
    let o2 = a + y + ">"@;
    if o1 == o2 {
        assert(o1.len() == o2.len());
        assert(x =~= o1.subrange(a.len() as int, (a.len() + x.len()) as int));
        assert(y =~= o2.subrange(a.len() as int, (a.len() + y.len()) as int));
    }
}

} // verus!
