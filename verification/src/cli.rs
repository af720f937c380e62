//! Parses `specdrs` and `cargo specdrs` command lines and checks each command's options.
use vstd::prelude::*;

use crate::analysis::TargetFilter;
use crate::projection::{group_key_parse, GroupKey};
use crate::text::{append, chars_of, concat, same_string, string_from_chars, string_lit};

verus! {

/// Selects the Cargo package to map.
#[derive(Debug)]
pub struct BuildOptions {
    /// Points to a package or workspace manifest.
    pub manifest_path: String,
    /// Selects a package when the manifest belongs to a workspace.
    pub package: Option<String>,
}

impl BuildOptions {
    /// The manifest in the current directory, with no package selected.
    pub fn default_options() -> (r: BuildOptions)
        ensures
            r.manifest_path@ == "Cargo.toml"@,
            r.package is None,
    {
        BuildOptions { manifest_path: string_lit("Cargo.toml"), package: None }
    }
}

/// Parsed options shared across commands.
#[derive(Debug)]
pub struct Args {
    pub build: BuildOptions,
    pub stdout: bool,
    pub output: Option<String>,
    pub query: Option<String>,
    pub json: bool,
    pub group_by: Vec<GroupKey>,
    pub group_by_set: bool,
    pub jobs: Option<usize>,
    pub spans: Vec<String>,
    pub items: Vec<String>,
}

/// Mathematical value of [`Args`].
pub struct ArgsV {
    pub manifest_path: Seq<char>,
    pub package: Option<Seq<char>>,
    pub stdout: bool,
    pub output: Option<Seq<char>>,
    pub query: Option<Seq<char>>,
    pub json: bool,
    pub group_by: Seq<GroupKey>,
    pub group_by_set: bool,
    pub jobs: Option<usize>,
    pub spans: Seq<Seq<char>>,
    pub items: Seq<Seq<char>>,
}

impl DeepView for Args {
    type V = ArgsV;

    open spec fn deep_view(&self) -> ArgsV {
        ArgsV {
            manifest_path: self.build.manifest_path@,
            package: self.build.package.deep_view(),
            stdout: self.stdout,
            output: self.output.deep_view(),
            query: self.query.deep_view(),
            json: self.json,
            group_by: self.group_by@,
            group_by_set: self.group_by_set,
            jobs: self.jobs,
            spans: self.spans.deep_view(),
            items: self.items.deep_view(),
        }
    }
}

/// Options before any argument is read: the current manifest, grouping by kind, axis, owner.
pub open spec fn initial_args() -> ArgsV {
    ArgsV {
        manifest_path: "Cargo.toml"@,
        package: None,
        stdout: false,
        output: None,
        query: None,
        json: false,
        group_by: seq![GroupKey::Kind, GroupKey::Axis, GroupKey::Owner],
        group_by_set: false,
        jobs: None,
        spans: Seq::empty(),
        items: Seq::empty(),
    }
}

// ---------------------------------------------------------------------------
// Values.

/// The decimal value of ASCII digits.
pub open spec fn digits_value(d: Seq<char>) -> int
    decreases d.len(),
{
    if d.len() == 0 {
        0
    } else {
        digits_value(d.drop_last()) * 10 + ((d.last() as int) - ('0' as int))
    }
}

/// Whether every character is an ASCII digit.
pub open spec fn all_digits(d: Seq<char>) -> bool {
    forall|i: int| 0 <= i < d.len() ==> '0' <= #[trigger] d[i] && d[i] <= '9'
}

/// The `usize` a text denotes (`usize::from_str`): optional `+`, then one or more digits.
pub open spec fn usize_value(s: Seq<char>) -> Option<usize> {
    let d = if s.len() > 0 && s[0] == '+' {
        s.skip(1)
    } else {
        s
    };
    if d.len() == 0 || !all_digits(d) || digits_value(d) > usize::MAX {
        None
    } else {
        Some(digits_value(d) as usize)
    }
}

proof fn lemma_digits_value_mono(d: Seq<char>, k: int, n: int)
    requires
        0 <= k <= n <= d.len(),
        all_digits(d),
    ensures
        0 <= digits_value(d.take(k)) <= digits_value(d.take(n)),
    decreases n - k,
{
    if k < n {
        lemma_digits_value_mono(d, k, n - 1);
        assert(d.take(n).drop_last() =~= d.take(n - 1));
        assert(d.take(n).last() == d[n - 1]);
    } else {
        lemma_digits_value_nonneg(d.take(k));
    }
}

proof fn lemma_digits_value_nonneg(d: Seq<char>)
    requires
        all_digits(d),
    ensures
        digits_value(d) >= 0,
    decreases d.len(),
{
    if d.len() > 0 {
        assert(all_digits(d.drop_last()));
        lemma_digits_value_nonneg(d.drop_last());
        assert('0' <= d.last());
    }
}

/// Parses a `usize` as `usize::from_str` does.
pub fn parse_usize(s: &str) -> (r: Option<usize>)
    ensures
        r == usize_value(s@),
{
    let v = chars_of(s);
    let start: usize = if v.len() > 0 && v[0] == '+' {
        1
    } else {
        0
    };
    let ghost d = s@.skip(start as int);
    assert(s@.skip(0) =~= s@);
    assert(d == (if s@.len() > 0 && s@[0] == '+' { s@.skip(1) } else { s@ }));
    if v.len() == start {
        return None;
    }
    let mut value: usize = 0;
    let mut k = start;
    assert(d.take(0) =~= Seq::<char>::empty());
    while k < v.len()
        invariant
            start <= k <= v@.len(),
            start < v@.len(),
            v@ == s@,
            d == s@.skip(start as int),
            d == (if s@.len() > 0 && s@[0] == '+' { s@.skip(1) } else { s@ }),
            all_digits(d.take(k - start)),
            value == digits_value(d.take(k - start)),
        decreases v@.len() - k,
    {
        let c = v[k];
        if c < '0' || c > '9' {
            assert(!all_digits(d)) by {
                assert(d[k - start] == c);
            }
            return None;
        }
        let digit = ((c as u32) - ('0' as u32)) as usize;
        proof {
            assert(d.take(k - start + 1).drop_last() =~= d.take(k - start));
            assert(d.take(k - start + 1).last() == c);
            assert(all_digits(d.take(k - start + 1)));
        }
        let next = match value.checked_mul(10) {
            Some(x) => x.checked_add(digit),
            None => None,
        };
        match next {
            Some(x) => {
                value = x;
            },
            None => {
                proof {
                    if all_digits(d) {
                        lemma_digits_value_mono(d, k - start + 1, d.len() as int);
                        assert(d.take(d.len() as int) =~= d);
                    }
                }
                return None;
            },
        }
        k = k + 1;
    }
    assert(d.take(k - start) =~= d);
    Some(value)
}

/// A comma-separated text split at every comma (`str::split(',')`).
pub open spec fn split_commas(s: Seq<char>) -> Seq<Seq<char>>
    decreases s.len(),
{
    if s.len() == 0 {
        seq![Seq::empty()]
    } else {
        let prev = split_commas(s.drop_last());
        if s.last() == ',' {
            prev.push(Seq::empty())
        } else {
            prev.update(prev.len() - 1, prev.last().push(s.last()))
        }
    }
}

proof fn lemma_split_commas_nonempty(s: Seq<char>)
    ensures
        split_commas(s).len() >= 1,
    decreases s.len(),
{
    if s.len() > 0 {
        lemma_split_commas_nonempty(s.drop_last());
    }
}

/// The keys named by the first `n` pieces, or the error of the first unknown one.
pub open spec fn keys_of(pieces: Seq<Seq<char>>, n: nat) -> Result<Seq<GroupKey>, Seq<char>>
    decreases n,
{
    if n == 0 || n > pieces.len() {
        Ok(Seq::empty())
    } else {
        match keys_of(pieces, (n - 1) as nat) {
            Err(e) => Err(e),
            Ok(ks) => match group_key_parse(pieces[n - 1]) {
                Ok(k) => Ok(ks.push(k)),
                Err(e) => Err(e),
            },
        }
    }
}

/// The grouping order a comma-separated `--group-by` value names.
pub open spec fn grouping_of(value: Seq<char>) -> Result<Seq<GroupKey>, Seq<char>> {
    keys_of(split_commas(value), split_commas(value).len())
}

proof fn lemma_keys_of_err(pieces: Seq<Seq<char>>, n: nat, n2: nat)
    requires
        n <= n2 <= pieces.len(),
        keys_of(pieces, n) is Err,
    ensures
        keys_of(pieces, n2) == keys_of(pieces, n),
    decreases n2 - n,
{
    if n < n2 {
        lemma_keys_of_err(pieces, n, (n2 - 1) as nat);
    }
}

/// Splits a text at every comma.
pub fn split_at_commas(value: &str) -> (r: Vec<String>)
    ensures
        r.deep_view() == split_commas(value@),
{
    let v = chars_of(value);
    let mut done: Vec<String> = Vec::new();
    let mut cur: Vec<char> = Vec::new();
    let mut k: usize = 0;
    assert(v@.take(0) =~= Seq::<char>::empty());
    assert(done.deep_view().push(cur@) =~= split_commas(Seq::<char>::empty()));
    while k < v.len()
        invariant
            k <= v@.len(),
            v@ == value@,
            split_commas(v@.take(k as int)) == done.deep_view().push(cur@),
        decreases v@.len() - k,
    {
        let ghost before = done.deep_view();
        let ghost piece = cur@;
        proof {
            assert(v@.take(k + 1).drop_last() =~= v@.take(k as int));
        }
        if v[k] == ',' {
            let text = string_from_chars(cur.as_slice());
            done.push(text);
            cur = Vec::new();
            assert(done.deep_view() =~= before.push(piece));
            assert(done.deep_view().push(cur@) =~= before.push(piece).push(Seq::<char>::empty()));
        } else {
            cur.push(v[k]);
            assert(done.deep_view().push(cur@) =~= before.push(piece).update(
                before.len() as int,
                piece.push(v@[k as int]),
            ));
        }
        k = k + 1;
    }
    let text = string_from_chars(cur.as_slice());
    let ghost before = done.deep_view();
    done.push(text);
    assert(done.deep_view() =~= before.push(cur@));
    assert(v@.take(k as int) =~= v@);
    done
}

/// Parses a comma-separated grouping order.
pub fn parse_grouping(value: &str) -> (r: Result<Vec<GroupKey>, String>)
    ensures
        match r {
            Ok(keys) => grouping_of(value@) == Ok::<Seq<GroupKey>, Seq<char>>(keys@),
            Err(e) => grouping_of(value@) == Err::<Seq<GroupKey>, Seq<char>>(e@),
        },
{
    let pieces = split_at_commas(value);
    let ghost pv = pieces.deep_view();
    let mut keys: Vec<GroupKey> = Vec::new();
    let mut k: usize = 0;
    while k < pieces.len()
        invariant
            k <= pieces.len(),
            pv == pieces.deep_view(),
            pv == split_commas(value@),
            keys_of(pv, k as nat) == Ok::<Seq<GroupKey>, Seq<char>>(keys@),
        decreases pieces.len() - k,
    {
        match GroupKey::parse(pieces[k].as_str()) {
            Ok(key) => {
                keys.push(key);
            },
            Err(e) => {
                proof {
                    lemma_keys_of_err(pv, (k + 1) as nat, pv.len());
                }
                return Err(e);
            },
        }
        k = k + 1;
    }
    Ok(keys)
}

// ---------------------------------------------------------------------------
// Arguments.

/// The argument following an option, or the error naming the option.
pub open spec fn value_after(args: Seq<Seq<char>>, j: int, option: Seq<char>) -> Result<Seq<char>, Seq<char>> {
    if 0 <= j < args.len() {
        Ok(args[j])
    } else {
        Err(option + " requires a value"@)
    }
}

/// The options of the arguments from position `i` on, read into `a`.
pub open spec fn parse_from(args: Seq<Seq<char>>, i: int, a: ArgsV) -> Result<ArgsV, Seq<char>>
    decreases args.len() - i,
{
    if i < 0 || i >= args.len() {
        Ok(a)
    } else {
        let x = args[i];
        if x == "--manifest-path"@ {
            match value_after(args, i + 1, "--manifest-path"@) {
                Ok(v) => parse_from(args, i + 2, ArgsV { manifest_path: v, ..a }),
                Err(e) => Err(e),
            }
        } else if x == "--package"@ || x == "-p"@ {
            match value_after(args, i + 1, "--package"@) {
                Ok(v) => parse_from(args, i + 2, ArgsV { package: Some(v), ..a }),
                Err(e) => Err(e),
            }
        } else if x == "--output"@ || x == "-o"@ {
            match value_after(args, i + 1, "--output"@) {
                Ok(v) => parse_from(args, i + 2, ArgsV { output: Some(v), ..a }),
                Err(e) => Err(e),
            }
        } else if x == "--stdout"@ {
            parse_from(args, i + 1, ArgsV { stdout: true, ..a })
        } else if x == "--json"@ {
            parse_from(args, i + 1, ArgsV { json: true, ..a })
        } else if x == "--group-by"@ {
            match value_after(args, i + 1, "--group-by"@) {
                Ok(v) => match grouping_of(v) {
                    Ok(keys) => parse_from(args, i + 2, ArgsV { group_by: keys, group_by_set: true, ..a }),
                    Err(e) => Err(e),
                },
                Err(e) => Err(e),
            }
        } else if x == "--jobs"@ {
            match value_after(args, i + 1, "--jobs"@) {
                Ok(v) => match usize_value(v) {
                    Some(n) => parse_from(args, i + 2, ArgsV { jobs: Some(n), ..a }),
                    None => Err("invalid --jobs value `"@ + v + "`"@),
                },
                Err(e) => Err(e),
            }
        } else if x == "--span"@ {
            match value_after(args, i + 1, "--span"@) {
                Ok(v) => parse_from(args, i + 2, ArgsV { spans: a.spans.push(v), ..a }),
                Err(e) => Err(e),
            }
        } else if x == "--item"@ {
            match value_after(args, i + 1, "--item"@) {
                Ok(v) => parse_from(args, i + 2, ArgsV { items: a.items.push(v), ..a }),
                Err(e) => Err(e),
            }
        } else if x.len() > 0 && x[0] == '-' {
            Err("unknown option `"@ + x + "`"@)
        } else if a.query is None {
            parse_from(args, i + 1, ArgsV { query: Some(x), ..a })
        } else {
            Err("unexpected argument `"@ + x + "`"@)
        }
    }
}

/// Parsing from position `j` reads only the arguments from `j` on.
proof fn lemma_parse_frame(s1: Seq<Seq<char>>, s2: Seq<Seq<char>>, j: int)
    requires
        0 <= j,
        s1.len() == s2.len(),
        forall|k: int| j <= k < s1.len() ==> s1[k] == s2[k],
    ensures
        forall|a: ArgsV| #[trigger] parse_from(s1, j, a) == parse_from(s2, j, a),
    decreases s1.len() - j,
{
    if j < s1.len() {
        lemma_parse_frame(s1, s2, j + 1);
        if j + 2 <= s1.len() {
            lemma_parse_frame(s1, s2, j + 2);
        } else {
            assert forall|b: ArgsV| #[trigger] parse_from(s1, j + 2, b) == parse_from(s2, j + 2, b) by {}
        }
        assert forall|o: Seq<char>| #[trigger] value_after(s1, j + 1, o) == value_after(s2, j + 1, o) by {
            if j + 1 < s1.len() {
                assert(s1[j + 1] == s2[j + 1]);
            }
        }
        assert(s1[j] == s2[j]);
        assert forall|a: ArgsV| #[trigger] parse_from(s1, j, a) == parse_from(s2, j, a) by {
            let x = s1[j];
            if j + 1 < s1.len() {
                assert(s1[j + 1] == s2[j + 1]);
            }
            if x == "--manifest-path"@ {
                if j + 1 < s1.len() {
                    let b = ArgsV { manifest_path: s1[j + 1], ..a };
                    assert(parse_from(s1, j + 2, b) == parse_from(s2, j + 2, b));
                }
                assert(parse_from(s1, j, a) == parse_from(s2, j, a));
            } else if x == "--package"@ || x == "-p"@ {
                if j + 1 < s1.len() {
                    let b = ArgsV { package: Some(s1[j + 1]), ..a };
                    assert(parse_from(s1, j + 2, b) == parse_from(s2, j + 2, b));
                }
                assert(parse_from(s1, j, a) == parse_from(s2, j, a));
            } else if x == "--output"@ || x == "-o"@ {
                if j + 1 < s1.len() {
                    let b = ArgsV { output: Some(s1[j + 1]), ..a };
                    assert(parse_from(s1, j + 2, b) == parse_from(s2, j + 2, b));
                }
                assert(parse_from(s1, j, a) == parse_from(s2, j, a));
            } else if x == "--stdout"@ {
                let b = ArgsV { stdout: true, ..a };
                assert(parse_from(s1, j + 1, b) == parse_from(s2, j + 1, b));
                assert(parse_from(s1, j, a) == parse_from(s2, j, a));
            } else if x == "--json"@ {
                let b = ArgsV { json: true, ..a };
                assert(parse_from(s1, j + 1, b) == parse_from(s2, j + 1, b));
                assert(parse_from(s1, j, a) == parse_from(s2, j, a));
            } else if x == "--group-by"@ {
                if j + 1 < s1.len() {
                    if let Ok(keys) = grouping_of(s1[j + 1]) {
                        let b = ArgsV { group_by: keys, group_by_set: true, ..a };
                        assert(parse_from(s1, j + 2, b) == parse_from(s2, j + 2, b));
                    }
                }
                assert(parse_from(s1, j, a) == parse_from(s2, j, a));
            } else if x == "--jobs"@ {
                if j + 1 < s1.len() {
                    if let Some(n) = usize_value(s1[j + 1]) {
                        let b = ArgsV { jobs: Some(n), ..a };
                        assert(parse_from(s1, j + 2, b) == parse_from(s2, j + 2, b));
                    }
                }
                assert(parse_from(s1, j, a) == parse_from(s2, j, a));
            } else if x == "--span"@ {
                if j + 1 < s1.len() {
                    let b = ArgsV { spans: a.spans.push(s1[j + 1]), ..a };
                    assert(parse_from(s1, j + 2, b) == parse_from(s2, j + 2, b));
                }
                assert(parse_from(s1, j, a) == parse_from(s2, j, a));
            } else if x == "--item"@ {
                if j + 1 < s1.len() {
                    let b = ArgsV { items: a.items.push(s1[j + 1]), ..a };
                    assert(parse_from(s1, j + 2, b) == parse_from(s2, j + 2, b));
                }
                assert(parse_from(s1, j, a) == parse_from(s2, j, a));
            } else if !(x.len() > 0 && x[0] == '-') && a.query is None {
                let b = ArgsV { query: Some(x), ..a };
                assert(parse_from(s1, j + 1, b) == parse_from(s2, j + 1, b));
                assert(parse_from(s1, j, a) == parse_from(s2, j, a));
            } else {
                assert(parse_from(s1, j, a) == parse_from(s2, j, a));
            }
        }
    } else {
        assert forall|a: ArgsV| #[trigger] parse_from(s1, j, a) == parse_from(s2, j, a) by {}
    }
}

/// `-o` is the short form of `--output`: wherever an option is read, writing one or the
/// other gives the same parse, for any arguments before and after it.
pub proof fn lemma_short_output(args: Seq<Seq<char>>, i: int, a: ArgsV)
    requires
        0 <= i < args.len(),
    ensures
        parse_from(args.update(i, "-o"@), i, a) == parse_from(args.update(i, "--output"@), i, a),
        i == 0 ==> parse_args(args.update(i, "-o"@)) == parse_args(args.update(i, "--output"@)),
{
    lemma_short_output_from(args, i, a);
    lemma_short_output_from(args, i, initial_args());
}

proof fn lemma_short_output_from(args: Seq<Seq<char>>, i: int, a: ArgsV)
    requires
        0 <= i < args.len(),
    ensures
        parse_from(args.update(i, "-o"@), i, a) == parse_from(args.update(i, "--output"@), i, a),
{
    reveal_strlit("-o");
    reveal_strlit("--output");
    reveal_strlit("--manifest-path");
    reveal_strlit("--package");
    reveal_strlit("-p");
    let s1 = args.update(i, "-o"@);
    let s2 = args.update(i, "--output"@);
    lemma_parse_frame(s1, s2, i + 1);
    if i + 2 <= s1.len() {
        lemma_parse_frame(s1, s2, i + 2);
    } else {
        assert forall|b: ArgsV| #[trigger] parse_from(s1, i + 2, b) == parse_from(s2, i + 2, b) by {}
    }
    assert(s1[i] == "-o"@);
    assert(s2[i] == "--output"@);
    assert(s1[i] != "--manifest-path"@);
    assert(s2[i] != "--manifest-path"@);
    assert(s1[i][1] != "-p"@[1]);
    assert(s1[i] != "--package"@ && s1[i] != "-p"@);
    assert(s2[i] != "--package"@ && s2[i] != "-p"@);
    if i + 1 < s1.len() {
        assert(s1[i + 1] == s2[i + 1]);
        let b = ArgsV { output: Some(s1[i + 1]), ..a };
        assert(parse_from(s1, i + 2, b) == parse_from(s2, i + 2, b));
    }
}

/// The options the arguments of a command give.
pub open spec fn parse_args(args: Seq<Seq<char>>) -> Result<ArgsV, Seq<char>> {
    parse_from(args, 0, initial_args())
}

fn required_value(args: &Vec<String>, index: usize, option: &str) -> (r: Result<String, String>)
    ensures
        match r {
            Ok(v) => value_after(args.deep_view(), index as int, option@) == Ok::<Seq<char>, Seq<char>>(v@),
            Err(e) => value_after(args.deep_view(), index as int, option@) == Err::<Seq<char>, Seq<char>>(e@),
        },
{
    if index < args.len() {
        Ok(args[index].clone())
    } else {
        Err(concat(option, " requires a value"))
    }
}

fn quote_in(prefix: &str, value: &String) -> (r: String)
    ensures
        r@ == prefix@ + value@ + "`"@,
{
    let mut r = concat(prefix, value.as_str());
    append(&mut r, "`");
    r
}

impl Args {
    /// Parses command arguments into one validated option set.
    pub fn parse(args: &Vec<String>) -> (r: Result<Args, String>)
        ensures
            match r {
                Ok(a) => parse_args(args.deep_view()) == Ok::<ArgsV, Seq<char>>(a.deep_view()),
                Err(e) => parse_args(args.deep_view()) == Err::<ArgsV, Seq<char>>(e@),
            },
    {
        let ghost av = args.deep_view();
        let mut group_by: Vec<GroupKey> = Vec::new();
        group_by.push(GroupKey::Kind);
        group_by.push(GroupKey::Axis);
        group_by.push(GroupKey::Owner);
        let mut parsed = Args {
            build: BuildOptions::default_options(),
            stdout: false,
            output: None,
            query: None,
            json: false,
            group_by,
            group_by_set: false,
            jobs: None,
            spans: Vec::new(),
            items: Vec::new(),
        };
        proof {
            assert(parsed.group_by@ =~= seq![GroupKey::Kind, GroupKey::Axis, GroupKey::Owner]);
            assert(parsed.spans.deep_view() =~= Seq::<Seq<char>>::empty());
            assert(parsed.items.deep_view() =~= Seq::<Seq<char>>::empty());
            assert(parsed.deep_view() == initial_args());
        }
        let mut index: usize = 0;
        while index < args.len()
            invariant
                index <= args.len(),
                av == args.deep_view(),
                parse_args(av) == parse_from(av, index as int, parsed.deep_view()),
            decreases args.len() - index,
        {
            let x = &args[index];
            let ghost before = parsed.deep_view();
            if same_string(x, "--manifest-path") {
                match required_value(args, index + 1, "--manifest-path") {
                    Ok(v) => {
                        parsed.build.manifest_path = v;
                        index = index + 2;
                    },
                    Err(e) => {
                        return Err(e);
                    },
                }
            } else if same_string(x, "--package") || same_string(x, "-p") {
                match required_value(args, index + 1, "--package") {
                    Ok(v) => {
                        parsed.build.package = Some(v);
                        index = index + 2;
                    },
                    Err(e) => {
                        return Err(e);
                    },
                }
            } else if same_string(x, "--output") || same_string(x, "-o") {
                match required_value(args, index + 1, "--output") {
                    Ok(v) => {
                        parsed.output = Some(v);
                        index = index + 2;
                    },
                    Err(e) => {
                        return Err(e);
                    },
                }
            } else if same_string(x, "--stdout") {
                parsed.stdout = true;
                index = index + 1;
            } else if same_string(x, "--json") {
                parsed.json = true;
                index = index + 1;
            } else if same_string(x, "--group-by") {
                match required_value(args, index + 1, "--group-by") {
                    Ok(v) => match parse_grouping(v.as_str()) {
                        Ok(keys) => {
                            parsed.group_by = keys;
                            parsed.group_by_set = true;
                            index = index + 2;
                        },
                        Err(e) => {
                            return Err(e);
                        },
                    },
                    Err(e) => {
                        return Err(e);
                    },
                }
            } else if same_string(x, "--jobs") {
                match required_value(args, index + 1, "--jobs") {
                    Ok(v) => match parse_usize(v.as_str()) {
                        Some(n) => {
                            parsed.jobs = Some(n);
                            index = index + 2;
                        },
                        None => {
                            return Err(quote_in("invalid --jobs value `", &v));
                        },
                    },
                    Err(e) => {
                        return Err(e);
                    },
                }
            } else if same_string(x, "--span") {
                match required_value(args, index + 1, "--span") {
                    Ok(v) => {
                        let ghost vv = v@;
                        let ghost spans = parsed.spans.deep_view();
                        parsed.spans.push(v);
                        assert(parsed.spans.deep_view() =~= spans.push(vv));
                        index = index + 2;
                    },
                    Err(e) => {
                        return Err(e);
                    },
                }
            } else if same_string(x, "--item") {
                match required_value(args, index + 1, "--item") {
                    Ok(v) => {
                        let ghost vv = v@;
                        let ghost items = parsed.items.deep_view();
                        parsed.items.push(v);
                        assert(parsed.items.deep_view() =~= items.push(vv));
                        index = index + 2;
                    },
                    Err(e) => {
                        return Err(e);
                    },
                }
            } else {
                let xv = chars_of(x.as_str());
                if xv.len() > 0 && xv[0] == '-' {
                    return Err(quote_in("unknown option `", x));
                } else if parsed.query.is_none() {
                    parsed.query = Some(x.clone());
                    index = index + 1;
                } else {
                    return Err(quote_in("unexpected argument `", x));
                }
            }
            proof {
                assert(parse_from(av, index as int, parsed.deep_view()) == parse_from(av, index as int, parsed.deep_view()));
            }
        }
        Ok(parsed)
    }

    /// Reports whether any analysis target was named.
    pub fn has_target_selection(&self) -> (r: bool)
        ensures
            r == (self.spans.len() > 0 || self.items.len() > 0),
    {
        self.spans.len() > 0 || self.items.len() > 0
    }

    /// Builds the analysis target selection: every target unless some were named.
    pub fn target_filter(&self) -> (r: TargetFilter)
        ensures
            !(self.spans.len() > 0 || self.items.len() > 0) ==> r is All,
            (self.spans.len() > 0 || self.items.len() > 0) ==> (r matches TargetFilter::Named { spans, items } && spans.deep_view()
                == self.spans.deep_view() && items.deep_view() == self.items.deep_view()),
    {
        if self.has_target_selection() {
            TargetFilter::Named {
                spans: crate::text::clone_strings(&self.spans),
                items: crate::text::clone_strings(&self.items),
            }
        } else {
            TargetFilter::All
        }
    }

    /// The options `emit` accepts: `--manifest-path`, `--package`, and one destination.
    pub fn check_emit_options(&self) -> (r: Result<(), String>)
        ensures
            (self.query is Some || self.json || self.group_by_set || self.jobs is Some
                || self.spans.len() > 0 || self.items.len() > 0) ==> r is Err && r->Err_0@
                == "emit accepts only --manifest-path, --package, --stdout, and --output"@,
            !(self.query is Some || self.json || self.group_by_set || self.jobs is Some
                || self.spans.len() > 0 || self.items.len() > 0) ==> (r is Err <==> (self.stdout
                && self.output is Some)) && (r is Err ==> r->Err_0@
                == "use either `--stdout` or `--output`, not both"@),
    {
        if self.query.is_some() || self.json || self.group_by_set || self.jobs.is_some()
            || self.has_target_selection() {
            return Err(string_lit("emit accepts only --manifest-path, --package, --stdout, and --output"));
        }
        if self.stdout && self.output.is_some() {
            return Err(string_lit("use either `--stdout` or `--output`, not both"));
        }
        Ok(())
    }

    /// The options `check` accepts: `--manifest-path` and `--package`.
    pub fn check_check_options(&self) -> (r: Result<(), String>)
        ensures
            r is Err <==> (self.stdout || self.output is Some || self.query is Some || self.json
                || self.group_by_set || self.jobs is Some || self.spans.len() > 0 || self.items.len() > 0),
            r is Err ==> r->Err_0@ == "check accepts only --manifest-path and --package"@,
    {
        if self.stdout || self.output.is_some() || self.query.is_some() || self.json
            || self.group_by_set || self.jobs.is_some() || self.has_target_selection() {
            return Err(string_lit("check accepts only --manifest-path and --package"));
        }
        Ok(())
    }

    /// The options `show` accepts, and its required span id or item path.
    pub fn check_show_options(&self) -> (r: Result<(), String>)
        ensures
            (self.stdout || self.output is Some || self.jobs is Some || self.spans.len() > 0
                || self.items.len() > 0) ==> r is Err && r->Err_0@
                == "show does not accept --stdout, --output, --jobs, --span, or --item"@,
            !(self.stdout || self.output is Some || self.jobs is Some || self.spans.len() > 0
                || self.items.len() > 0) ==> (r is Err <==> self.query is None) && (r is Err ==> r->Err_0@
                == "show requires a span id or item def path"@),
    {
        if self.stdout || self.output.is_some() || self.jobs.is_some() || self.has_target_selection() {
            return Err(string_lit("show does not accept --stdout, --output, --jobs, --span, or --item"));
        }
        if self.query.is_none() {
            return Err(string_lit("show requires a span id or item def path"));
        }
        Ok(())
    }

    /// The options `analyze` accepts.
    pub fn check_analyze_options(&self) -> (r: Result<(), String>)
        ensures
            r is Err <==> (self.stdout || self.output is Some || self.query is Some || self.group_by_set),
            r is Err ==> r->Err_0@
                == "analyze accepts only --manifest-path, --package, --jobs, --span, --item, and --json"@,
    {
        if self.stdout || self.output.is_some() || self.query.is_some() || self.group_by_set {
            return Err(string_lit("analyze accepts only --manifest-path, --package, --jobs, --span, --item, and --json"));
        }
        Ok(())
    }
}

// ---------------------------------------------------------------------------
// Commands.

/// One command of the command line.
#[derive(Debug, Clone, Copy, PartialEq, Eq, Structural)]
pub enum Command {
    Emit,
    Check,
    Show,
    Analyze,
    How,
    Help,
    Version,
}

/// Position of the command name: after a leading `specdrs` (how cargo forwards a subcommand).
pub open spec fn command_position(args: Seq<Seq<char>>) -> int {
    if args.len() > 0 && args[0] == "specdrs"@ {
        1
    } else {
        0
    }
}

/// The command the arguments select and the position of its options; help wins wherever
/// it is asked for.
pub open spec fn command_of(args: Seq<Seq<char>>) -> Result<(Command, int), Seq<char>> {
    let at = command_position(args);
    let rest = args.skip(at + 1);
    let c = args[at];
    if rest.contains("--help"@) || rest.contains("-h"@) {
        Ok((Command::Help, at + 1))
    } else if c == "emit"@ {
        Ok((Command::Emit, at + 1))
    } else if c == "check"@ {
        Ok((Command::Check, at + 1))
    } else if c == "show"@ {
        Ok((Command::Show, at + 1))
    } else if c == "analyze"@ {
        Ok((Command::Analyze, at + 1))
    } else if c == "how"@ {
        Ok((Command::How, at + 1))
    } else if c == "help"@ || c == "--help"@ || c == "-h"@ {
        Ok((Command::Help, at + 1))
    } else if c == "--version"@ || c == "-V"@ {
        Ok((Command::Version, at + 1))
    } else {
        Err("unknown command `"@ + c + "`\n\nRun `cargo specdrs help`."@)
    }
}

/// Selects the command a process's arguments name, and where its options start.
pub fn select_command(args: &Vec<String>) -> (r: Result<(Command, usize), String>)
    requires
        args.len() > command_position(args.deep_view()),
    ensures
        match r {
            Ok((c, at)) => command_of(args.deep_view()) == Ok::<(Command, int), Seq<char>>((c, at as int)),
            Err(e) => command_of(args.deep_view()) == Err::<(Command, int), Seq<char>>(e@),
        },
{
    let ghost av = args.deep_view();
    let at: usize = if args.len() > 0 && same_string(&args[0], "specdrs") {
        1
    } else {
        0
    };
    let mut k = at + 1;
    let mut help = false;
    while k < args.len()
        invariant
            at + 1 <= k <= args.len(),
            av == args.deep_view(),
            help == exists|x: int| at + 1 <= x < k && (av[x] == "--help"@ || av[x] == "-h"@),
        decreases args.len() - k,
    {
        if same_string(&args[k], "--help") || same_string(&args[k], "-h") {
            assert(av[k as int] == "--help"@ || av[k as int] == "-h"@);
            help = true;
        }
        k = k + 1;
    }
    proof {
        let rest = av.skip(at + 1);
        if help {
            let x = choose|x: int| at + 1 <= x < k && (av[x] == "--help"@ || av[x] == "-h"@);
            assert(rest[x - at - 1] == av[x]);
            if av[x] == "--help"@ {
                assert(rest.contains("--help"@));
            } else {
                assert(rest.contains("-h"@));
            }
        } else {
            assert(!rest.contains("--help"@) && !rest.contains("-h"@)) by {
                if rest.contains("--help"@) {
                    let y = choose|y: int| 0 <= y < rest.len() && rest[y] == "--help"@;
                    assert(av[y + at + 1] == rest[y]);
                }
                if rest.contains("-h"@) {
                    let y = choose|y: int| 0 <= y < rest.len() && rest[y] == "-h"@;
                    assert(av[y + at + 1] == rest[y]);
                }
            }
        }
    }
    if help {
        return Ok((Command::Help, at + 1));
    }
    let c = &args[at];
    if same_string(c, "emit") {
        Ok((Command::Emit, at + 1))
    } else if same_string(c, "check") {
        Ok((Command::Check, at + 1))
    } else if same_string(c, "show") {
        Ok((Command::Show, at + 1))
    } else if same_string(c, "analyze") {
        Ok((Command::Analyze, at + 1))
    } else if same_string(c, "how") {
        Ok((Command::How, at + 1))
    } else if same_string(c, "help") || same_string(c, "--help") || same_string(c, "-h") {
        Ok((Command::Help, at + 1))
    } else if same_string(c, "--version") || same_string(c, "-V") {
        Ok((Command::Version, at + 1))
    } else {
        let mut e = concat("unknown command `", c.as_str());
        append(&mut e, "`\n\nRun `cargo specdrs help`.");
        Err(e)
    }
}


/// The text the `how` command prints.
pub open spec fn authoring_guide_text() -> Seq<char> {
    "specdrs authoring guide

specdrs records engineering decisions as claims next to the code they govern.

Claims
  A claim is one falsifiable proposition with a kind and an axis, written as
  \"text\" as alias. Claims nest kind first, then axis:
    Objectives(Job(\"Complete one checkout.\" as complete_checkout))
    Constraints(Invariants(\"One key creates at most one row.\" as one_row))
    Assumptions(Assumptions(\"The provider keeps keys.\" as provider_keys))
  Kinds come in that order, each kind and axis pair once per block.
  Axes: Job, Interface, Effects, Invariants, Assumptions, State, Time, Failure,
  Resources, Authority, Observation, Change.
  NotApplicable(State = \"reason\") marks an axis that does not apply.
  evidence(alias(Test = crate::tests::name)) points a claim at the test, type,
  lint or proof that would falsify it.

Spans
  A span is a named cut of responsibility. Declare it once, with span(...) in a
  #[specdrs] attribute on its host item, or with specdrs_span!(id = \"...\",
  entry = crate::path, parent = \"...\", claims(...)) where no item hosts it.
  An impl block declaring a span names its entry and owns no claims.

Items
  #[specdrs(in_spans(\"checkout\"), claims(...))] joins an item to spans and gives
  it claims of its own. At most one claims(...) block per item.

Modules
  specdrs_module!(in_spans(\"checkout\")) joins every item of the module, inline
  and file-backed descendants included.

Commands
  emit writes the JSON map, check validates it, show projects the claims of one
  span or item, and analyze asks a model to audit claims against the source.
"@
}

/// The authoring guide: when to use each macro and how to compose spans and claims.
/// The `how` command accepts no arguments.
pub fn authoring_guide(rest: &Vec<String>) -> (r: Result<String, String>)
    ensures
        match r {
            Ok(g) => rest@.len() == 0 && g@ == authoring_guide_text(),
            Err(e) => rest@.len() > 0 && e@ == "how accepts no arguments"@,
        },
{
    if rest.len() > 0 {
        return Err(string_lit("how accepts no arguments"));
    }
    Ok(string_lit("specdrs authoring guide

specdrs records engineering decisions as claims next to the code they govern.

Claims
  A claim is one falsifiable proposition with a kind and an axis, written as
  \"text\" as alias. Claims nest kind first, then axis:
    Objectives(Job(\"Complete one checkout.\" as complete_checkout))
    Constraints(Invariants(\"One key creates at most one row.\" as one_row))
    Assumptions(Assumptions(\"The provider keeps keys.\" as provider_keys))
  Kinds come in that order, each kind and axis pair once per block.
  Axes: Job, Interface, Effects, Invariants, Assumptions, State, Time, Failure,
  Resources, Authority, Observation, Change.
  NotApplicable(State = \"reason\") marks an axis that does not apply.
  evidence(alias(Test = crate::tests::name)) points a claim at the test, type,
  lint or proof that would falsify it.

Spans
  A span is a named cut of responsibility. Declare it once, with span(...) in a
  #[specdrs] attribute on its host item, or with specdrs_span!(id = \"...\",
  entry = crate::path, parent = \"...\", claims(...)) where no item hosts it.
  An impl block declaring a span names its entry and owns no claims.

Items
  #[specdrs(in_spans(\"checkout\"), claims(...))] joins an item to spans and gives
  it claims of its own. At most one claims(...) block per item.

Modules
  specdrs_module!(in_spans(\"checkout\")) joins every item of the module, inline
  and file-backed descendants included.

Commands
  emit writes the JSON map, check validates it, show projects the claims of one
  span or item, and analyze asks a model to audit claims against the source.
"))
}

/// The parts of the default output path of an emitted map, given the manifest path's
/// file name and parent directory: the manifest's directory when the file is
/// `Cargo.toml` (`.` when it has none), else `.`; then `target/specdrs/<crate>.json`.
pub open spec fn default_output_parts(
    file_name: Option<Seq<char>>,
    parent: Option<Seq<char>>,
    crate_name: Seq<char>,
) -> Seq<Seq<char>> {
    let base = if file_name == Some("Cargo.toml"@) {
        match parent {
            Some(p) => p,
            None => "."@,
        }
    } else {
        "."@
    };
    seq![base, "target"@, "specdrs"@, crate_name + ".json"@]
}

/// The parts of the default output path from the manifest path's file name and parent;
/// see [`default_output_parts`].
pub fn default_output_from(file_name: &Option<String>, parent: &Option<String>, crate_name: &String) -> (r: Vec<String>)
    ensures
        r.deep_view() == default_output_parts(file_name.deep_view(), parent.deep_view(), crate_name@),
{
    proof {
        reveal_strlit("Cargo.toml");
    }
    let is_manifest = match file_name {
        Some(n) => same_string(n, "Cargo.toml"),
        None => false,
    };
    let base = if is_manifest {
        match parent {
            Some(p) => p.clone(),
            None => string_lit("."),
        }
    } else {
        string_lit(".")
    };
    let mut r: Vec<String> = Vec::new();
    r.push(base);
    r.push(string_lit("target"));
    r.push(string_lit("specdrs"));
    r.push(concat(crate_name.as_str(), ".json"));
    assert(r.deep_view() =~= default_output_parts(file_name.deep_view(), parent.deep_view(), crate_name@));
    r
}

/// The final component of `path` (`Path::file_name`), where it is UTF-8. What it is
/// depends on the platform's path rules, so nothing is claimed of it.
#[verifier::external_body]
fn path_file_name(path: &String) -> (r: Option<String>) {
    std::path::Path::new(path).file_name().and_then(|name| name.to_str()).map(String::from)
}

/// The parent directory of `path` (`Path::parent`), where it is UTF-8. What it is
/// depends on the platform's path rules, so nothing is claimed of it.
#[verifier::external_body]
fn path_parent(path: &String) -> (r: Option<String>) {
    std::path::Path::new(path).parent().and_then(|parent| parent.to_str()).map(String::from)
}

/// The parts of the default output path of the map of crate `crate_name` built from the
/// manifest at `manifest_path`: a base directory, then `target`, `specdrs` and
/// `<crate>.json`. The base is `.`, or the manifest's parent directory when the
/// manifest's file name is `Cargo.toml` (see [`default_output_from`]).
pub fn default_output(manifest_path: &String, crate_name: &String) -> (r: Vec<String>)
    ensures
        exists|file_name: Option<Seq<char>>, parent: Option<Seq<char>>|
            #[trigger] default_output_parts(file_name, parent, crate_name@) == r.deep_view(),
        r.deep_view().len() == 4,
        r.deep_view()[1] == "target"@,
        r.deep_view()[2] == "specdrs"@,
        r.deep_view()[3] == crate_name@ + ".json"@,
{
    let file_name = path_file_name(manifest_path);
    let parent = path_parent(manifest_path);
    default_output_from(&file_name, &parent, crate_name)
}

proof fn lemma_default_grouping_from(args: Seq<Seq<char>>, i: int, a: ArgsV)
    requires
        parse_from(args, i, a) is Ok,
        a.group_by_set || a.group_by == seq![GroupKey::Kind, GroupKey::Axis, GroupKey::Owner],
    ensures
        parse_from(args, i, a)->Ok_0.group_by_set || parse_from(args, i, a)->Ok_0.group_by
            == seq![GroupKey::Kind, GroupKey::Axis, GroupKey::Owner],
    decreases args.len() - i,
{
    if !(i < 0 || i >= args.len()) {
        let x = args[i];
        if x == "--manifest-path"@ {
            lemma_default_grouping_from(args, i + 2, ArgsV { manifest_path: args[i + 1], ..a });
        } else if x == "--package"@ || x == "-p"@ {
            lemma_default_grouping_from(args, i + 2, ArgsV { package: Some(args[i + 1]), ..a });
        } else if x == "--output"@ || x == "-o"@ {
            lemma_default_grouping_from(args, i + 2, ArgsV { output: Some(args[i + 1]), ..a });
        } else if x == "--stdout"@ {
            lemma_default_grouping_from(args, i + 1, ArgsV { stdout: true, ..a });
        } else if x == "--json"@ {
            lemma_default_grouping_from(args, i + 1, ArgsV { json: true, ..a });
        } else if x == "--group-by"@ {
            let keys = grouping_of(args[i + 1])->Ok_0;
            lemma_default_grouping_from(args, i + 2, ArgsV { group_by: keys, group_by_set: true, ..a });
        } else if x == "--jobs"@ {
            let n = usize_value(args[i + 1])->Some_0;
            lemma_default_grouping_from(args, i + 2, ArgsV { jobs: Some(n), ..a });
        } else if x == "--span"@ {
            lemma_default_grouping_from(args, i + 2, ArgsV { spans: a.spans.push(args[i + 1]), ..a });
        } else if x == "--item"@ {
            lemma_default_grouping_from(args, i + 2, ArgsV { items: a.items.push(args[i + 1]), ..a });
        } else if !(x.len() > 0 && x[0] == '-') && a.query is None {
            lemma_default_grouping_from(args, i + 1, ArgsV { query: Some(x), ..a });
        }
    }
}

/// Without `--group-by`, a projection groups by kind, then axis, then owner.
pub proof fn lemma_default_grouping(args: Seq<Seq<char>>)
    requires
        parse_args(args) is Ok,
        !parse_args(args)->Ok_0.group_by_set,
    ensures
        parse_args(args)->Ok_0.group_by == seq![GroupKey::Kind, GroupKey::Axis, GroupKey::Owner],
{
    lemma_default_grouping_from(args, 0, initial_args());
}

} // verus!
