//! The request text: the program, the scanned arguments and the shipped
//! files, each variable part in base64.
use vstd::prelude::*;
use vstd::utf8::encode_utf8;
use crate::codec::{base64_of, encodable_len, encode_base64};
use crate::scan::{is_substituted, replaced_paths, scanned_arg, scanned_from, Argument, Invocation, Replacement};

verus! {

/// The base64 text of the UTF-8 bytes of `s`.
pub open spec fn encoded_text(s: Seq<char>) -> Seq<char> {
    base64_of(encode_utf8(s))
}

/// The argument line without its newline: each argument encoded and followed
/// by a comma.
pub open spec fn argument_line(args: Seq<Seq<char>>) -> Seq<char>
    decreases args.len(),
{
    if args.len() == 0 {
        Seq::empty()
    } else {
        argument_line(args.drop_last()) + encoded_text(args.last()) + seq![',']
    }
}

/// One line per shipped file: its synthetic name, a colon, its contents in
/// base64, and a newline.
pub open spec fn file_lines(names: Seq<Seq<char>>, contents: Seq<Seq<u8>>) -> Seq<char>
    decreases names.len(),
{
    if names.len() == 0 || contents.len() == 0 {
        Seq::empty()
    } else {
        file_lines(names.drop_last(), contents.drop_last()) + names.last() + seq![':']
            + base64_of(contents.last()) + seq!['\n']
    }
}

/// The whole request: the program line, the argument line, then the lines of
/// the shipped files.
pub open spec fn request_text(
    program: Seq<char>,
    args: Seq<Seq<char>>,
    names: Seq<Seq<char>>,
    contents: Seq<Seq<u8>>,
) -> Seq<char> {
    encoded_text(program) + seq!['\n'] + argument_line(args) + seq!['\n'] + file_lines(
        names,
        contents,
    )
}

/// The texts of a vector of strings.
pub open spec fn texts(v: Seq<String>) -> Seq<Seq<char>> {
    v.map_values(|s: String| s@)
}

/// The synthetic names of the replacements.
pub open spec fn names_of(v: Seq<Replacement>) -> Seq<Seq<char>> {
    v.map_values(|r: Replacement| r.name@)
}

/// The byte sequences of a vector of buffers.
pub open spec fn buffers(v: Seq<Vec<u8>>) -> Seq<Seq<u8>> {
    v.map_values(|b: Vec<u8>| b@)
}

/// Whether every part of the request is short enough for base64 to encode.
pub open spec fn encodable(inv: Invocation, contents: Seq<Vec<u8>>) -> bool {
    &&& encodable_len(encode_utf8(inv.program@).len())
    &&& forall|j: int|
        0 <= j < inv.args@.len() ==> encodable_len(encode_utf8(#[trigger] inv.args@[j]@).len())
    &&& forall|k: int| 0 <= k < contents.len() ==> encodable_len((#[trigger] contents[k])@.len())
}

fn encode_str(s: &str) -> (r: String)
    requires
        encodable_len(encode_utf8(s@).len()),
    ensures
        r@ == encoded_text(s@),
{
    encode_base64(s.as_bytes())
}

/// Frames the request for `inv`, where `contents` holds the bytes of each
/// replacement's file, in the order of the replacements.
pub fn encode_request(inv: &Invocation, contents: &Vec<Vec<u8>>) -> (r: String)
    requires
        contents@.len() == inv.replacements@.len(),
        encodable(*inv, contents@),
    ensures
        r@ == request_text(
            inv.program@,
            texts(inv.args@),
            names_of(inv.replacements@),
            buffers(contents@),
        ),
{
    proof {
        reveal_strlit("\n");
        reveal_strlit(",");
        reveal_strlit(":");
        assert("\n"@ =~= seq!['\n']);
        assert(","@ =~= seq![',']);
        assert(":"@ =~= seq![':']);
    }
    let mut body = encode_str(inv.program.as_str());
    body.append("\n");
    let mut i: usize = 0;
    while i < inv.args.len()
        invariant
            i <= inv.args@.len(),
            ","@ == seq![','],
            encodable(*inv, contents@),
            body@ == encoded_text(inv.program@) + seq!['\n'] + argument_line(
                texts(inv.args@).take(i as int),
            ),
        decreases inv.args@.len() - i,
    {
        let ghost before = body@;
        body.append(encode_str(inv.args[i].as_str()).as_str());
        body.append(",");
        assert(texts(inv.args@).take(i + 1).drop_last() =~= texts(inv.args@).take(i as int));
        assert(body@ =~= before + encoded_text(inv.args@[i as int]@) + seq![',']);
        i = i + 1;
    }
    assert(texts(inv.args@).take(i as int) =~= texts(inv.args@));
    body.append("\n");
    let ghost head = body@;
    assert(file_lines(Seq::empty(), Seq::empty()) == Seq::<char>::empty());
    assert(head =~= head + file_lines(
        names_of(inv.replacements@).take(0),
        buffers(contents@).take(0),
    ));
    let mut k: usize = 0;
    while k < contents.len()
        invariant
            k <= contents@.len(),
            ":"@ == seq![':'],
            "\n"@ == seq!['\n'],
            contents@.len() == inv.replacements@.len(),
            encodable(*inv, contents@),
            body@ == head + file_lines(
                names_of(inv.replacements@).take(k as int),
                buffers(contents@).take(k as int),
            ),
        decreases contents@.len() - k,
    {
        let ghost before = body@;
        body.append(inv.replacements[k].name.as_str());
        body.append(":");
        body.append(encode_base64(contents[k].as_slice()).as_str());
        body.append("\n");
        assert(names_of(inv.replacements@).take(k + 1).drop_last() =~= names_of(
            inv.replacements@,
        ).take(k as int));
        assert(buffers(contents@).take(k + 1).drop_last() =~= buffers(contents@).take(k as int));
        assert(body@ =~= before + inv.replacements@[k as int].name@ + seq![':'] + base64_of(
            contents@[k as int]@,
        ) + seq!['\n']);
        k = k + 1;
    }
    assert(names_of(inv.replacements@).take(k as int) =~= names_of(inv.replacements@));
    assert(buffers(contents@).take(k as int) =~= buffers(contents@));
    body
}

/// The argument line of two runs of arguments is the line of the first run
/// followed by the line of the second.
pub proof fn lemma_argument_line_concat(a: Seq<Seq<char>>, b: Seq<Seq<char>>)
    ensures
        argument_line(a + b) == argument_line(a) + argument_line(b),
    decreases b.len(),
{
    if b.len() == 0 {
        assert(a + b =~= a);
        assert(argument_line(b) =~= Seq::<char>::empty());
        assert(argument_line(a) + argument_line(b) =~= argument_line(a));
    } else {
        assert((a + b).drop_last() =~= a + b.drop_last());
        lemma_argument_line_concat(a, b.drop_last());
        assert(argument_line(a) + argument_line(b) =~= argument_line(a) + argument_line(
            b.drop_last(),
        ) + encoded_text(b.last()) + seq![',']);
    }
}

/// An argument that scanning leaves alone creates no replacement, and the
/// request carries it as it is: its own base64 text, then a comma, between
/// the fields of the arguments before and after it.
pub proof fn lemma_plain_argument_sent_as_is(
    inv: Invocation,
    program: Seq<char>,
    args: Seq<Argument>,
    j: int,
)
    requires
        scanned_from(inv, program, args),
        0 <= j < args.len(),
        !is_substituted(args[j].text@, args[j].found),
    ensures
        replaced_paths(args.take(j + 1)) == replaced_paths(args.take(j)),
        argument_line(texts(inv.args@)) == argument_line(texts(inv.args@).take(j))
            + encoded_text(args[j].text@) + seq![','] + argument_line(
            texts(inv.args@).skip(j + 1),
        ),
{
    let t = texts(inv.args@);
    assert(args.take(j + 1).drop_last() =~= args.take(j));
    assert(t[j] == inv.args@[j]@);
    assert(t[j] == scanned_arg(args, j));
    assert(t[j] == args[j].text@);
    let one = seq![t[j]];
    assert(argument_line(one) =~= encoded_text(args[j].text@) + seq![',']) by {
        assert(one.drop_last() =~= Seq::<Seq<char>>::empty());
        assert(argument_line(one.drop_last()) =~= Seq::<char>::empty());
        assert(one.last() == args[j].text@);
        assert(argument_line(one) == argument_line(one.drop_last()) + encoded_text(one.last())
            + seq![',']);
    }
    assert(t =~= t.take(j) + (one + t.skip(j + 1)));
    lemma_argument_line_concat(t.take(j), one + t.skip(j + 1));
    lemma_argument_line_concat(one, t.skip(j + 1));
    assert(argument_line(t) =~= argument_line(t.take(j)) + encoded_text(args[j].text@) + seq![',']
        + argument_line(t.skip(j + 1)));
}

/// Arguments of which none is substituted create no replacement.
pub proof fn lemma_no_substitution_no_paths(args: Seq<Argument>)
    requires
        forall|j: int| 0 <= j < args.len() ==> !is_substituted(#[trigger] args[j].text@, args[j].found),
    ensures
        replaced_paths(args).len() == 0,
    decreases args.len(),
{
    if args.len() > 0 {
        let a = args.drop_last();
        assert forall|j: int| 0 <= j < a.len() implies !is_substituted(#[trigger] a[j].text@, a[j].found) by {
            assert(a[j] == args[j]);
        }
        lemma_no_substitution_no_paths(a);
        assert(!is_substituted(args[args.len() - 1].text@, args[args.len() - 1].found));
    }
}

/// Where no argument names a shipped file, there are no replacements and
/// the request ends with the argument line: its file section is empty.
pub proof fn lemma_no_files_empty_section(
    inv: Invocation,
    program: Seq<char>,
    args: Seq<Argument>,
    contents: Seq<Seq<u8>>,
)
    requires
        scanned_from(inv, program, args),
        forall|j: int| 0 <= j < args.len() ==> !is_substituted(#[trigger] args[j].text@, args[j].found),
        contents.len() == 0,
    ensures
        inv.replacements@.len() == 0,
        request_text(program, texts(inv.args@), names_of(inv.replacements@), contents)
            == encoded_text(program) + seq!['\n'] + argument_line(texts(inv.args@)) + seq!['\n'],
{
    lemma_no_substitution_no_paths(args);
    let r = request_text(program, texts(inv.args@), names_of(inv.replacements@), contents);
    assert(file_lines(names_of(inv.replacements@), contents) == Seq::<char>::empty());
    assert(r =~= encoded_text(program) + seq!['\n'] + argument_line(texts(inv.args@)) + seq!['\n']);
}

} // verus!
