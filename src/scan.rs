//! Deciding which arguments name local files that travel with the request,
//! and giving each such file a short synthetic name.
use vstd::prelude::*;
use crate::text::{chars_of, chars_equal, decimal, last_index, last_index_of, lemma_last_index_bounds, push_decimal};

verus! {

/// One argument of the invocation, with whether a file exists at the path it
/// spells (as the filesystem answered when the invocation was captured).
pub struct Argument {
    pub text: String,
    pub found: bool,
}

/// A file shipped with the request: the synthetic name under which the remote
/// side sees it, and the local path that it came from.
pub struct Replacement {
    pub name: String,
    pub path: String,
}

/// The last component of a path: what follows its last `/`.
pub open spec fn file_name(p: Seq<char>) -> Seq<char> {
    p.subrange(last_index_of(p, '/') + 1, p.len() as int)
}

/// The extension of a path: what follows the last `.` of its last component,
/// where that dot is not the component's first character; `..` has none.
pub open spec fn extension_of(p: Seq<char>) -> Option<Seq<char>> {
    let f = file_name(p);
    let d = last_index_of(f, '.');
    if d <= 0 || f == seq!['.', '.'] {
        None
    } else {
        Some(f.subrange(d + 1, f.len() as int))
    }
}

/// The extensions whose files are shipped (compared exactly, case included).
pub open spec fn is_listed_extension(e: Seq<char>) -> bool {
    ||| e == "gif"@
    ||| e == "jpg"@
    ||| e == "jpeg"@
    ||| e == "png"@
    ||| e == "svg"@
    ||| e == "webm"@
    ||| e == "webp"@
    ||| e == "mp4"@
    ||| e == "icc"@
}

/// The suffix of a synthetic name for a file with the given extension: a dot
/// and the extension where it is listed, and nothing otherwise.
pub open spec fn extension_suffix(ext: Option<Seq<char>>) -> Seq<char> {
    match ext {
        Some(e) => if is_listed_extension(e) { seq!['.'] + e } else { Seq::empty() },
        None => Seq::empty(),
    }
}

/// Whether an argument is replaced by a synthetic name: it is an absolute
/// path, a file exists there, and its extension is listed.
pub open spec fn is_substituted(text: Seq<char>, found: bool) -> bool {
    &&& text.len() > 0
    &&& text[0] == '/'
    &&& found
    &&& extension_of(text) is Some
    &&& is_listed_extension(extension_of(text)->0)
}

/// The synthetic name of the replacement at position `i`.
pub open spec fn synthetic_name(i: nat, path: Seq<char>) -> Seq<char> {
    decimal(i) + extension_suffix(extension_of(path))
}

/// Whether `e` is one of the listed extensions.
pub fn is_listed(e: &[char]) -> (r: bool)
    ensures
        r == is_listed_extension(e@),
{
    chars_equal(e, chars_of("gif").as_slice()) || chars_equal(e, chars_of("jpg").as_slice())
        || chars_equal(e, chars_of("jpeg").as_slice()) || chars_equal(e, chars_of("png").as_slice())
        || chars_equal(e, chars_of("svg").as_slice()) || chars_equal(e, chars_of("webm").as_slice())
        || chars_equal(e, chars_of("webp").as_slice()) || chars_equal(e, chars_of("mp4").as_slice())
        || chars_equal(e, chars_of("icc").as_slice())
}

/// The extension of a path, as `extension_of` describes it.
pub fn extension(path: &str) -> (r: Option<String>)
    ensures
        match r {
            Some(e) => extension_of(path@) == Some(e@),
            None => extension_of(path@) is None,
        },
{
    let p = chars_of(path);
    let n: usize = p.len();
    proof {
        lemma_last_index_bounds(p@, '/');
    }
    let start: usize = match last_index(p.as_slice(), '/') {
        Some(i) => {
            assert(i < n);
            i + 1
        },
        None => 0,
    };
    let f = path.substring_char(start, p.len());
    let fc = chars_of(f);
    assert(fc@ == file_name(path@));
    proof {
        lemma_last_index_bounds(fc@, '.');
        reveal_strlit("..");
    }
    match last_index(fc.as_slice(), '.') {
        Some(d) => {
            if d == 0 || chars_equal(fc.as_slice(), chars_of("..").as_slice()) {
                assert(".."@ =~= seq!['.', '.']);
                None
            } else {
                assert(".."@ =~= seq!['.', '.']);
                Some(f.substring_char(d + 1, fc.len()).to_owned())
            }
        },
        None => None,
    }
}

/// The suffix that a file with extension `ext` gets in its synthetic name.
pub fn sanitized_extension(ext: Option<&str>) -> (r: String)
    ensures
        r@ == extension_suffix(
            match ext {
                Some(e) => Some(e@),
                None => None,
            },
        ),
{
    proof {
        reveal_strlit(".");
    }
    match ext {
        Some(e) => {
            if is_listed(chars_of(e).as_slice()) {
                let mut r = String::from_str(".");
                r.append(e);
                r
            } else {
                String::new()
            }
        },
        None => String::new(),
    }
}

/// Replaces `arg` by a synthetic name where it names a shipped file, and
/// records the replacement; any other argument is handed back as it is.
pub fn scan_argument(arg: String, found: bool, replacements: &mut Vec<Replacement>) -> (r: String)
    ensures
        is_substituted(arg@, found) ==> {
            &&& r@ == synthetic_name(old(replacements)@.len(), arg@)
            &&& final(replacements)@.len() == old(replacements)@.len() + 1
            &&& final(replacements)@.drop_last() == old(replacements)@
            &&& final(replacements)@.last().name@ == r@
            &&& final(replacements)@.last().path@ == arg@
        },
        !is_substituted(arg@, found) ==> r@ == arg@ && final(replacements)@ == old(replacements)@,
{
    if !found || arg.as_str().unicode_len() == 0 || arg.as_str().get_char(0) != '/' {
        return arg;
    }
    let ext = extension(arg.as_str());
    let suffix = match &ext {
        Some(e) => sanitized_extension(Some(e.as_str())),
        None => sanitized_extension(None),
    };
    if suffix.as_str().unicode_len() == 0 {
        proof {
            reveal_strlit(".");
        }
        return arg;
    }
    let mut name = String::new();
    push_decimal(replacements.len(), &mut name);
    name.append(suffix.as_str());
    let r = name.clone();
    let ghost before = replacements@;
    replacements.push(Replacement { name, path: arg });
    assert(replacements@.drop_last() =~= before);
    r
}

/// The paths of the replacements that scanning `args` creates, in order.
pub open spec fn replaced_paths(args: Seq<Argument>) -> Seq<Seq<char>>
    decreases args.len(),
{
    if args.len() == 0 {
        Seq::empty()
    } else {
        let before = replaced_paths(args.drop_last());
        let a = args.last();
        if is_substituted(a.text@, a.found) {
            before.push(a.text@)
        } else {
            before
        }
    }
}

/// What argument `j` of `args` becomes: its synthetic name, numbered by the
/// replacements created before it, or the argument itself.
pub open spec fn scanned_arg(args: Seq<Argument>, j: int) -> Seq<char> {
    let a = args[j];
    if is_substituted(a.text@, a.found) {
        synthetic_name(replaced_paths(args.take(j)).len(), a.text@)
    } else {
        a.text@
    }
}

/// The program, its arguments after scanning, and the files that travel along.
pub struct Invocation {
    pub program: String,
    pub args: Vec<String>,
    pub replacements: Vec<Replacement>,
}

/// Whether `inv` is what scanning the arguments `args` of `program` gives.
pub open spec fn scanned_from(inv: Invocation, program: Seq<char>, args: Seq<Argument>) -> bool {
    let paths = replaced_paths(args);
    &&& inv.program@ == program
    &&& inv.args@.len() == args.len()
    &&& forall|j: int| 0 <= j < args.len() ==> #[trigger] inv.args@[j]@ == scanned_arg(args, j)
    &&& inv.replacements@.len() == paths.len()
    &&& forall|k: int|
        0 <= k < paths.len() ==> {
            &&& (#[trigger] inv.replacements@[k]).path@ == paths[k]
            &&& inv.replacements@[k].name@ == synthetic_name(k as nat, paths[k])
        }
}

/// Scans the arguments of `program` in order.
pub fn scan_arguments(program: String, args: Vec<Argument>) -> (r: Invocation)
    ensures
        scanned_from(r, program@, args@),
{
    let ghost all = args@;
    let n: usize = args.len();
    let mut out: Vec<String> = Vec::new();
    let mut replacements: Vec<Replacement> = Vec::new();
    let mut rest = args;
    proof {
        assert(replaced_paths(all.take(0)) =~= Seq::<Seq<char>>::empty()) by {
            assert(all.take(0).len() == 0);
        }
    }
    let mut i: usize = 0;
    while rest.len() > 0
        invariant
            i + rest@.len() == all.len(),
            all.len() == n,
            rest@ == all.skip(i as int),
            out@.len() == i,
            forall|j: int| 0 <= j < i ==> #[trigger] out@[j]@ == scanned_arg(all, j),
            replacements@.len() == replaced_paths(all.take(i as int)).len(),
            forall|k: int|
                0 <= k < replacements@.len() ==> {
                    &&& (#[trigger] replacements@[k]).path@ == replaced_paths(all.take(i as int))[k]
                    &&& replacements@[k].name@ == synthetic_name(
                        k as nat,
                        replaced_paths(all.take(i as int))[k],
                    )
                },
        decreases rest@.len(),
    {
        let a = rest.remove(0);
        assert(all.skip(i as int)[0] == all[i as int]);
        assert(rest@ =~= all.skip(i + 1));
        assert(a == all[i as int]);
        assert(all.take(i + 1).drop_last() =~= all.take(i as int));
        assert(all.take(i + 1).last() == all[i as int]);
        let ghost old_reps = replacements@;
        let t = scan_argument(a.text, a.found, &mut replacements);
        proof {
            if is_substituted(a.text@, a.found) {
                assert forall|k: int| 0 <= k < replacements@.len() - 1 implies
                    #[trigger] replacements@[k] == old_reps[k] by {
                    assert(replacements@.drop_last()[k] == replacements@[k]);
                }
            }
        }
        out.push(t);
        i = i + 1;
    }
    assert(all.take(i as int) =~= all);
    Invocation { program, args: out, replacements }
}

/// Captures an invocation from the command line `argv`: the client's own
/// name, then the program, then its arguments. There is none where `argv`
/// lacks the program.
pub fn capture(argv: Vec<Argument>) -> (r: Option<Invocation>)
    ensures
        argv@.len() < 2 <==> r is None,
        r matches Some(inv) ==> scanned_from(inv, argv@[1].text@, argv@.skip(2)),
{
    if argv.len() < 2 {
        return None;
    }
    let ghost all = argv@;
    let mut args = argv;
    let mut rest = args.split_off(2);
    let program = args.pop().unwrap();
    assert(rest@ =~= all.skip(2));
    Some(scan_arguments(program.text, rest))
}

} // verus!
