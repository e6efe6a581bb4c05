use vstd::prelude::*;
use vstd::string::StrSliceExecFns;
use vstd::string::StringSliceAdditionalSpecFns;
use vstd::utf8::encode_scalar;
use vstd::utf8::encode_utf8;

use crate::strings::str_eq;
use crate::tree::{parse_snapshot, parsed_tree, StoredTree, SyntaxNode};
use crate::utils::Range;

verus! {

#[verifier::external_type_specification]
#[verifier::external_body]
pub struct ExRope(ropey::Rope);

/// The characters a rope holds, in order.
pub uninterp spec fn rope_chars(r: ropey::Rope) -> Seq<char>;

/// Relies on ropey::Rope::from_str: the rope holds exactly the text.
#[verifier::external_body]
fn rope_from_str(text: &str) -> (r: ropey::Rope)
    ensures
        rope_chars(r) == text@,
{
    ropey::Rope::from_str(text)
}

/// Relies on ropey::Rope's text rendering: writes the held text back out.
#[verifier::external_body]
fn rope_to_string(r: &ropey::Rope) -> (s: String)
    ensures
        s@ == rope_chars(*r),
{
    r.to_string()
}

/// Relies on ropey::Rope::len_bytes.
#[verifier::external_body]
fn rope_len_bytes(r: &ropey::Rope) -> (n: usize)
    ensures
        n == encode_utf8(rope_chars(*r)).len(),
{
    r.len_bytes()
}

/// Relies on ropey::Rope::len_lines: one more than the number of line
/// breaks (this build splits lines on line feed alone, a one-byte
/// UTF-8 sequence, so byte counting agrees with character counting).
#[verifier::external_body]
fn rope_len_lines(r: &ropey::Rope) -> (n: usize)
    ensures
        n == spec_count_lf(encode_utf8(rope_chars(*r))) + 1,
{
    r.len_lines()
}

/// Relies on ropey::Rope::line_to_byte: the byte index where the given
/// zero-based line starts.
#[verifier::external_body]
fn rope_line_to_byte(r: &ropey::Rope, line: usize) -> (n: usize)
    requires
        line as int <= spec_count_lf(encode_utf8(rope_chars(*r))),
    ensures
        n == spec_line_start(encode_utf8(rope_chars(*r)), line as nat),
{
    r.line_to_byte(line)
}

/// Relies on ropey::Rope::byte_to_line: the zero-based line the byte
/// sits on, which is the number of line feeds before it.
#[verifier::external_body]
fn rope_byte_to_line(r: &ropey::Rope, byte_idx: usize) -> (n: usize)
    requires
        byte_idx as int <= encode_utf8(rope_chars(*r)).len(),
    ensures
        n == spec_count_lf(encode_utf8(rope_chars(*r)).take(byte_idx as int)),
{
    r.byte_to_line(byte_idx)
}

/// Relies on ropey::Rope::byte_to_char: the index of the character the
/// byte belongs to (one past the end for the one-past-the-end byte).
#[verifier::external_body]
fn rope_byte_to_char(r: &ropey::Rope, byte_idx: usize) -> (n: usize)
    requires
        byte_idx as int <= encode_utf8(rope_chars(*r)).len(),
    ensures
        n == spec_byte_to_char(rope_chars(*r), byte_idx as int),
{
    r.byte_to_char(byte_idx)
}

/// Relies on ropey::Rope::char_to_byte: the byte index of the given char
/// index, which is the UTF-8 length of everything before it.
#[verifier::external_body]
fn rope_char_to_byte(r: &ropey::Rope, char_idx: usize) -> (n: usize)
    requires
        char_idx as int <= rope_chars(*r).len(),
    ensures
        n == encode_utf8(rope_chars(*r).take(char_idx as int)).len(),
{
    r.char_to_byte(char_idx)
}

/// Relies on ropey::Rope::remove over a char range.
#[verifier::external_body]
fn rope_remove(r: &mut ropey::Rope, start: usize, end: usize)
    requires
        start <= end,
        end as int <= rope_chars(*old(r)).len(),
    ensures
        rope_chars(*final(r)) == rope_chars(*old(r)).take(start as int) + rope_chars(
            *old(r),
        ).skip(end as int),
{
    r.remove(start..end)
}

/// Relies on ropey::Rope::insert at a char index.
#[verifier::external_body]
fn rope_insert(r: &mut ropey::Rope, char_idx: usize, text: &str)
    requires
        char_idx as int <= rope_chars(*old(r)).len(),
    ensures
        rope_chars(*final(r)) == rope_chars(*old(r)).take(char_idx as int) + text@ + rope_chars(
            *old(r),
        ).skip(char_idx as int),
{
    r.insert(char_idx, text)
}

/// Relies on tree_sitter::Tree::edit: tells the stored tree that the
/// bytes `start_byte..old_end_byte` of its text were replaced by
/// `start_byte..new_end_byte` of the post-edit buffer, which the
/// `requires` pins exactly (unchanged bytes before the edit and after
/// it, in both texts), together with the row/column form of each of
/// the three offsets in its text, so that the tree stays a sound parse
/// hint. The parser also expects the start point not to exceed the old
/// end point, which correct points of ordered offsets satisfy.
#[verifier::external_body]
fn tree_edit(
    tree: &mut StoredTree,
    new_content: &ropey::Rope,
    start_byte: usize,
    old_end_byte: usize,
    new_end_byte: usize,
    start_point: (usize, usize),
    old_end_point: (usize, usize),
    new_end_point: (usize, usize),
)
    requires
        ({
            let old_b = encode_utf8(old(tree).spec_text());
            let new_b = encode_utf8(rope_chars(*new_content));
            &&& start_byte <= old_end_byte <= old_b.len()
            &&& start_byte <= new_end_byte <= new_b.len()
            &&& new_b.len() - new_end_byte == old_b.len() - old_end_byte
            &&& new_b.take(start_byte as int) == old_b.take(start_byte as int)
            &&& new_b.skip(new_end_byte as int) == old_b.skip(old_end_byte as int)
            &&& spec_point_of_byte(old_b, start_byte as int, start_point)
            &&& spec_point_of_byte(old_b, old_end_byte as int, old_end_point)
            &&& spec_point_of_byte(new_b, new_end_byte as int, new_end_point)
        }),
    ensures
        final(tree).spec_text() == rope_chars(*new_content),
{
    tree.tree.edit(
        &tree_sitter::InputEdit {
            start_byte,
            old_end_byte,
            new_end_byte,
            start_position: tree_sitter::Point::new(start_point.0, start_point.1),
            old_end_position: tree_sitter::Point::new(old_end_point.0, old_end_point.1),
            new_end_position: tree_sitter::Point::new(new_end_point.0, new_end_point.1),
        },
    );
}

/// The index of the character that owns the given byte of the
/// buffer's UTF-8 form — positions inside a multi-byte character round
/// down to that character — or one past the end for the byte just past
/// the end.
pub open spec fn spec_byte_to_char(chars: Seq<char>, byte: int) -> int
    decreases chars.len(),
{
    if chars.len() == 0 {
        0
    } else if byte < encode_scalar(chars[0] as u32).len() {
        0
    } else {
        1 + spec_byte_to_char(
            chars.drop_first(),
            byte - encode_scalar(chars[0] as u32).len(),
        )
    }
}

/// The owning character's index never exceeds the character count.
pub proof fn lemma_byte_to_char_le_len(chars: Seq<char>, byte: int)
    ensures
        0 <= spec_byte_to_char(chars, byte) <= chars.len(),
    decreases chars.len(),
{
    if chars.len() > 0 {
        lemma_byte_to_char_le_len(
            chars.drop_first(),
            byte - encode_scalar(chars[0] as u32).len(),
        );
    }
}

/// Byte order carries over to the owning characters.
pub proof fn lemma_byte_to_char_monotone(chars: Seq<char>, b1: int, b2: int)
    requires
        b1 <= b2,
    ensures
        spec_byte_to_char(chars, b1) <= spec_byte_to_char(chars, b2),
    decreases chars.len(),
{
    if chars.len() > 0 {
        let w = encode_scalar(chars[0] as u32).len();
        if b1 >= w {
            lemma_byte_to_char_monotone(chars.drop_first(), b1 - w, b2 - w);
        } else {
            lemma_byte_to_char_le_len(chars, b2);
        }
    }
}

/// UTF-8 encoding distributes over concatenation.
pub proof fn lemma_encode_utf8_concat(a: Seq<char>, b: Seq<char>)
    ensures
        encode_utf8(a + b) == encode_utf8(a) + encode_utf8(b),
    decreases a.len(),
{
    if a.len() == 0 {
        assert(a + b =~= b);
        assert(encode_utf8(a) + encode_utf8(b) =~= encode_utf8(b));
    } else {
        assert((a + b)[0] == a[0]);
        assert((a + b).drop_first() =~= a.drop_first() + b);
        lemma_encode_utf8_concat(a.drop_first(), b);
        assert(encode_scalar(a[0] as u32) + (encode_utf8(a.drop_first()) + encode_utf8(b))
            =~= (encode_scalar(a[0] as u32) + encode_utf8(a.drop_first())) + encode_utf8(b));
    }
}

/// A buffer's encoding splits at any character index.
pub proof fn lemma_encode_split(chars: Seq<char>, k: int)
    requires
        0 <= k <= chars.len(),
    ensures
        encode_utf8(chars) == encode_utf8(chars.take(k)) + encode_utf8(chars.skip(k)),
{
    assert(chars =~= chars.take(k) + chars.skip(k));
    lemma_encode_utf8_concat(chars.take(k), chars.skip(k));
}

/// Number of line-feed bytes in `bytes` (a line feed is a one-byte
/// UTF-8 sequence, so byte counting agrees with character counting).
pub open spec fn spec_count_lf(bytes: Seq<u8>) -> int
    decreases bytes.len(),
{
    if bytes.len() == 0 {
        0
    } else {
        spec_count_lf(bytes.drop_last()) + if bytes.last() == 10u8 {
            1int
        } else {
            0int
        }
    }
}

/// The byte index at which the given zero-based line starts: right
/// after the line-th line feed, or one past the end when the buffer
/// holds fewer lines.
pub open spec fn spec_line_start(bytes: Seq<u8>, line: nat) -> int
    decreases bytes.len(),
{
    if line == 0 {
        0
    } else if bytes.len() == 0 {
        0
    } else if bytes[0] == 10u8 {
        1 + spec_line_start(bytes.drop_first(), (line - 1) as nat)
    } else {
        1 + spec_line_start(bytes.drop_first(), line)
    }
}

/// `point` is the row/column form of byte offset `b` in `bytes`: the
/// row counts the line feeds before the offset, the column is its
/// distance from that row's start.
pub open spec fn spec_point_of_byte(bytes: Seq<u8>, b: int, point: (usize, usize)) -> bool {
    &&& point.0 == spec_count_lf(bytes.take(b))
    &&& point.1 == b - spec_line_start(bytes, spec_count_lf(bytes.take(b)) as nat)
}

/// Line feeds in a concatenation: the counts add.
pub proof fn lemma_count_lf_concat(a: Seq<u8>, b: Seq<u8>)
    ensures
        spec_count_lf(a + b) == spec_count_lf(a) + spec_count_lf(b),
    decreases b.len(),
{
    if b.len() == 0 {
        assert(a + b =~= a);
    } else {
        lemma_count_lf_concat(a, b.drop_last());
        assert((a + b).drop_last() =~= a + b.drop_last());
    }
}

/// A buffer holds no more line feeds than bytes.
pub proof fn lemma_count_lf_le_len(bytes: Seq<u8>)
    ensures
        0 <= spec_count_lf(bytes) <= bytes.len(),
    decreases bytes.len(),
{
    if bytes.len() > 0 {
        lemma_count_lf_le_len(bytes.drop_last());
    }
}

/// Counting a buffer head-first: the first byte contributes, the rest
/// follows.
proof fn lemma_count_lf_head(bytes: Seq<u8>)
    requires
        bytes.len() > 0,
    ensures
        spec_count_lf(bytes) == (if bytes[0] == 10u8 {
            1int
        } else {
            0int
        }) + spec_count_lf(bytes.drop_first()),
{
    assert(bytes =~= seq![bytes[0]] + bytes.drop_first());
    lemma_count_lf_concat(seq![bytes[0]], bytes.drop_first());
    assert(spec_count_lf(Seq::<u8>::empty()) == 0);
    assert(spec_count_lf(seq![bytes[0]]) == (if bytes[0] == 10u8 {
        1int
    } else {
        0int
    })) by {
        assert(seq![bytes[0]].drop_last() =~= Seq::<u8>::empty());
        assert(seq![bytes[0]].last() == bytes[0]);
    }
}

/// A line start never lies past the end of the buffer.
pub proof fn lemma_line_start_le_len(bytes: Seq<u8>, line: nat)
    ensures
        0 <= spec_line_start(bytes, line) <= bytes.len(),
    decreases bytes.len(),
{
    if line != 0 && bytes.len() != 0 {
        if bytes[0] == 10u8 {
            lemma_line_start_le_len(bytes.drop_first(), (line - 1) as nat);
        } else {
            lemma_line_start_le_len(bytes.drop_first(), line);
        }
    }
}

/// A line that starts within a prefix starts at the same place in any
/// extension of that prefix.
pub proof fn lemma_line_start_in_prefix(x: Seq<u8>, y: Seq<u8>, r: nat)
    requires
        r <= spec_count_lf(x),
    ensures
        spec_line_start(x + y, r) == spec_line_start(x, r),
    decreases x.len(),
{
    if r != 0 {
        lemma_count_lf_le_len(x);
        assert(x.len() > 0);
        lemma_count_lf_head(x);
        assert((x + y).len() > 0);
        assert((x + y)[0] == x[0]);
        assert((x + y).drop_first() =~= x.drop_first() + y);
        if x[0] == 10u8 {
            lemma_line_start_in_prefix(x.drop_first(), y, (r - 1) as nat);
        } else {
            lemma_line_start_in_prefix(x.drop_first(), y, r);
        }
    }
}

/// A line past all of a prefix's breaks starts where the corresponding
/// line of the suffix starts, shifted by the prefix.
pub proof fn lemma_line_start_past_prefix(x: Seq<u8>, y: Seq<u8>, q: nat)
    requires
        q >= 1,
    ensures
        spec_line_start(x + y, (spec_count_lf(x) + q) as nat) == x.len() + spec_line_start(y, q),
    decreases x.len(),
{
    lemma_count_lf_le_len(x);
    if x.len() == 0 {
        assert(x + y =~= y);
    } else {
        lemma_count_lf_head(x);
        assert((x + y)[0] == x[0]);
        assert((x + y).drop_first() =~= x.drop_first() + y);
        lemma_line_start_past_prefix(x.drop_first(), y, q);
        lemma_count_lf_le_len(x.drop_first());
    }
}

/// The prefix up to a line's start holds exactly that many line feeds.
pub proof fn lemma_breaks_before_line_start(bytes: Seq<u8>, r: nat)
    requires
        r <= spec_count_lf(bytes),
    ensures
        spec_count_lf(bytes.take(spec_line_start(bytes, r))) == r,
    decreases bytes.len(),
{
    if r != 0 {
        lemma_count_lf_le_len(bytes);
        assert(bytes.len() > 0);
        lemma_count_lf_head(bytes);
        let rest = bytes.drop_first();
        assert(spec_count_lf(Seq::<u8>::empty()) == 0);
        assert(spec_count_lf(seq![bytes[0]]) == (if bytes[0] == 10u8 {
            1int
        } else {
            0int
        })) by {
            assert(seq![bytes[0]].drop_last() =~= Seq::<u8>::empty());
            assert(seq![bytes[0]].last() == bytes[0]);
        }
        if bytes[0] == 10u8 {
            lemma_breaks_before_line_start(rest, (r - 1) as nat);
            lemma_line_start_le_len(rest, (r - 1) as nat);
            let t = spec_line_start(rest, (r - 1) as nat);
            assert(spec_line_start(bytes, r) == 1 + t);
            assert(bytes.take(1 + t) =~= seq![bytes[0]] + rest.take(t));
            lemma_count_lf_concat(seq![bytes[0]], rest.take(t));
        } else {
            lemma_breaks_before_line_start(rest, r);
            lemma_line_start_le_len(rest, r);
            let t = spec_line_start(rest, r);
            assert(spec_line_start(bytes, r) == 1 + t);
            assert(bytes.take(1 + t) =~= seq![bytes[0]] + rest.take(t));
            lemma_count_lf_concat(seq![bytes[0]], rest.take(t));
        }
    }
}

/// A buffer that ends in a line feed has its last line start exactly
/// at its end.
proof fn lemma_line_start_after_final_break(x: Seq<u8>)
    requires
        x.len() > 0,
        x.last() == 10u8,
    ensures
        spec_line_start(x, spec_count_lf(x) as nat) == x.len(),
    decreases x.len(),
{
    lemma_count_lf_head(x);
    lemma_count_lf_le_len(x);
    let rest = x.drop_first();
    let k = spec_count_lf(x);
    if x.len() == 1 {
        assert(x[0] == 10u8);
        assert(rest =~= Seq::<u8>::empty());
        assert(spec_count_lf(rest) == 0);
        assert(k == 1);
        assert(spec_line_start(x, 1nat) == 1 + spec_line_start(rest, 0nat));
    } else {
        assert(rest.last() == 10u8);
        lemma_line_start_after_final_break(rest);
        lemma_count_lf_le_len(rest);
        if x[0] == 10u8 {
            assert(spec_count_lf(rest) == k - 1);
            assert(spec_line_start(x, k as nat) == 1 + spec_line_start(rest, (k - 1) as nat));
        } else {
            assert(spec_count_lf(rest) == k);
            assert(spec_line_start(x, k as nat) == 1 + spec_line_start(rest, k as nat));
        }
    }
}

/// If a prefix of length `j` ends in a line feed and holds `k` of
/// them, the buffer's line `k` starts exactly at `j`.
pub proof fn lemma_line_start_at_break(bytes: Seq<u8>, j: int, k: nat)
    requires
        0 < j <= bytes.len(),
        bytes[j - 1] == 10u8,
        spec_count_lf(bytes.take(j)) == k,
    ensures
        spec_line_start(bytes, k) == j,
{
    let x = bytes.take(j);
    let y = bytes.skip(j);
    assert(x.last() == bytes[j - 1]);
    lemma_line_start_after_final_break(x);
    lemma_line_start_in_prefix(x, y, k);
    assert(x + y =~= bytes);
}

/// Round-trip offsets: one edit replaces the bytes between a valid
/// start position and an end offset; the end position the store
/// reports for the edit (same line with the columns advanced when the
/// text holds no line feed, else the line advanced by the text's line
/// feeds and the column set to its trailing length) maps, in the
/// post-edit buffer, back to exactly the end of the inserted text.
pub proof fn lemma_edit_round_trip(
    bytes: Seq<u8>,
    text: Seq<u8>,
    row: nat,
    col: nat,
    end_idx: int,
)
    requires
        row <= spec_count_lf(bytes),
        spec_line_start(bytes, row) + col <= end_idx <= bytes.len(),
        spec_count_lf(
            bytes.subrange(spec_line_start(bytes, row), spec_line_start(bytes, row) + col),
        ) == 0,
    ensures
        ({
            let start_idx = spec_line_start(bytes, row) + col;
            let new_bytes = bytes.take(start_idx) + text + bytes.skip(end_idx);
            let breaks = spec_count_lf(text);
            &&& breaks == 0 ==> spec_line_start(new_bytes, row) + col + text.len() == start_idx
                + text.len()
            &&& breaks >= 1 ==> spec_line_start(new_bytes, (row + breaks) as nat) + (text.len()
                - spec_line_start(text, breaks as nat)) == start_idx + text.len()
        }),
{
    let ls = spec_line_start(bytes, row);
    let start_idx = ls + col;
    let p = bytes.take(start_idx);
    let rest = text + bytes.skip(end_idx);
    let new_bytes = bytes.take(start_idx) + text + bytes.skip(end_idx);
    assert(new_bytes =~= p + rest);
    lemma_line_start_le_len(bytes, row);
    lemma_breaks_before_line_start(bytes, row);
    assert(p =~= bytes.take(ls) + bytes.subrange(ls, start_idx));
    lemma_count_lf_concat(bytes.take(ls), bytes.subrange(ls, start_idx));
    assert(spec_count_lf(p) == row);
    let breaks = spec_count_lf(text);
    lemma_count_lf_le_len(text);
    if breaks == 0 {
        lemma_line_start_in_prefix(p, rest, row);
        assert(bytes =~= p + bytes.skip(start_idx));
        lemma_line_start_in_prefix(p, bytes.skip(start_idx), row);
    } else {
        lemma_line_start_past_prefix(p, rest, breaks as nat);
        lemma_line_start_in_prefix(text, bytes.skip(end_idx), breaks as nat);
    }
}

/// Counts the line feeds in `text` and finds the byte index right after
/// the last one — the start of the text's last line (0 when there is
/// none): the row and column advance the text causes, in the byte
/// terms the parser's bookkeeping uses.
fn count_text_breaks(text: &str) -> (r: (usize, usize))
    ensures
        r.0 == spec_count_lf(text.spec_bytes()),
        r.1 == spec_line_start(text.spec_bytes(), r.0 as nat),
        r.1 <= text.spec_bytes().len(),
{
    let bytes = text.as_bytes_vec();
    let n = bytes.len();
    let mut breaks: usize = 0;
    let mut last_start: usize = 0;
    proof {
        assert(bytes@.take(0) =~= Seq::<u8>::empty());
    }
    let mut i: usize = 0;
    while i < n
        invariant
            n == bytes@.len(),
            bytes@ == text.spec_bytes(),
            i <= n,
            breaks == spec_count_lf(bytes@.take(i as int)),
            breaks <= i,
            last_start == spec_line_start(bytes@, breaks as nat),
            last_start <= i,
        decreases n - i,
    {
        proof {
            assert(bytes@.take(i as int + 1).drop_last() =~= bytes@.take(i as int));
            assert(bytes@.take(i as int + 1).last() == bytes@[i as int]);
            lemma_count_lf_le_len(bytes@.take(i as int));
        }
        if bytes[i] == 10u8 {
            breaks = breaks + 1;
            last_start = i + 1;
            proof {
                lemma_line_start_at_break(bytes@, i as int + 1, breaks as nat);
            }
        }
        i += 1;
    }
    proof {
        assert(bytes@.take(n as int) =~= bytes@);
    }
    (breaks, last_start)
}

/// One edit of an open file, as the protocol reports it: the range to
/// replace (an edit without a range is ignored) and the replacement text.
pub struct ContentChange {
    pub range: Option<Range>,
    pub text: String,
}

/// One open file: its text buffer, the parser's own tree (kept so later
/// parses can reuse it), and the record form of the tree the resolver
/// walks.
pub struct SourceFile {
    pub content: ropey::Rope,
    pub tree: StoredTree,
    pub syntax: SyntaxNode,
}

/// The store of open files, keyed by path. Throughout the store, lines
/// are split on line feeds alone: a lone carriage return is ordinary
/// text, not a line break, so positions on documents using bare
/// carriage-return breaks are addressed as if those lines were one.
pub struct FileDatabase {
    pub files: Vec<(String, SourceFile)>,
}

/// The first stored file under the given path.
pub open spec fn spec_find_file(files: Seq<(String, SourceFile)>, path: Seq<char>) -> Option<
    SourceFile,
>
    decreases files.len(),
{
    if files.len() == 0 {
        None
    } else if files[0].0@ == path {
        Some(files[0].1)
    } else {
        spec_find_file(files.drop_first(), path)
    }
}

/// A stored file's parser tree has been kept in step with its text
/// (so it is a sound hint for the next parse), and whenever the
/// current text parses, the record tree is its parse: the two are
/// patched together, so a reader never sees a buffer whose offsets
/// disagree with its tree.
pub open spec fn file_synced(f: SourceFile) -> bool {
    &&& f.tree.spec_text() == rope_chars(f.content)
    &&& match parsed_tree(rope_chars(f.content)) {
        Some(root) => f.syntax == root,
        None => true,
    }
}

/// Every entry is in step with its text, and paths are unique keys.
pub open spec fn files_wf(files: Seq<(String, SourceFile)>) -> bool {
    &&& forall|i: int| 0 <= i < files.len() ==> file_synced((#[trigger] files[i]).1)
    &&& forall|i: int, j: int|
        0 <= i < j < files.len() ==> (#[trigger] files[i]).0@ != (#[trigger] files[j]).0@
}

/// A list without the path has no entry for it.
proof fn lemma_find_file_absent(files: Seq<(String, SourceFile)>, path: Seq<char>)
    requires
        forall|j: int| 0 <= j < files.len() ==> (#[trigger] files[j]).0@ != path,
    ensures
        spec_find_file(files, path) is None,
    decreases files.len(),
{
    if files.len() > 0 {
        assert(files[0].0@ != path);
        assert forall|j: int| 0 <= j < files.drop_first().len() implies (#[trigger] files.drop_first()[j]).0@
            != path by {
            assert(files.drop_first()[j] == files[j + 1]);
        }
        lemma_find_file_absent(files.drop_first(), path);
    }
}

/// The first entry whose key matches is the one a lookup yields.
proof fn lemma_find_file_first_match(files: Seq<(String, SourceFile)>, k: int, path: Seq<char>)
    requires
        0 <= k < files.len(),
        forall|j: int| 0 <= j < k ==> (#[trigger] files[j]).0@ != path,
        files[k].0@ == path,
    ensures
        spec_find_file(files, path) == Some(files[k].1),
    decreases k,
{
    if k > 0 {
        assert(files[0].0@ != path);
        assert forall|j: int| 0 <= j < k - 1 implies (#[trigger] files.drop_first()[j]).0@
            != path by {
            assert(files.drop_first()[j] == files[j + 1]);
        }
        assert(files.drop_first()[k - 1] == files[k]);
        lemma_find_file_first_match(files.drop_first(), k - 1, path);
    }
}

/// The index of the first entry stored under the path, if any.
fn find_index(files: &Vec<(String, SourceFile)>, path: &str) -> (r: Option<usize>)
    ensures
        match r {
            Some(k) => k < files@.len() && files@[k as int].0@ == path@ && (forall|j: int|
                0 <= j < k ==> (#[trigger] files@[j]).0@ != path@),
            None => forall|j: int| 0 <= j < files@.len() ==> (#[trigger] files@[j]).0@ != path@,
        },
{
    let n = files.len();
    let mut i: usize = 0;
    while i < n
        invariant
            n == files@.len(),
            i <= n,
            forall|j: int| 0 <= j < i ==> (#[trigger] files@[j]).0@ != path@,
        decreases n - i,
    {
        if str_eq(files[i].0.as_str(), path) {
            return Some(i);
        }
        i += 1;
    }
    None
}

/// Which edits of a batch are applied: those that carry a range, both
/// of whose positions denote byte offsets inside the buffer (the
/// line's start byte plus the column) that fall on character
/// boundaries, in order, with each column staying within its own line.
pub open spec fn spec_edit_valid(chars: Seq<char>, change: ContentChange) -> bool {
    match change.range {
        None => false,
        Some(range) => {
            let bytes = encode_utf8(chars);
            let start_byte = spec_line_start(bytes, range.start.line as nat)
                + range.start.character as int;
            let end_byte = spec_line_start(bytes, range.end.line as nat)
                + range.end.character as int;
            &&& range.start.line as int <= spec_count_lf(bytes)
            &&& range.end.line as int <= spec_count_lf(bytes)
            &&& start_byte <= bytes.len()
            &&& end_byte <= bytes.len()
            &&& start_byte <= end_byte
            &&& encode_utf8(chars.take(spec_byte_to_char(chars, start_byte))).len() == start_byte
            &&& encode_utf8(chars.take(spec_byte_to_char(chars, end_byte))).len() == end_byte
            &&& spec_count_lf(bytes.take(start_byte)) == range.start.line as int
            &&& spec_count_lf(bytes.take(end_byte)) == range.end.line as int
        },
    }
}

/// One edit applied to the buffer: the characters between the
/// addressed byte offsets are replaced by the edit's text; an edit
/// that addresses nothing (no range, positions outside the buffer, or
/// offsets inside a multi-byte character) leaves the buffer as it is.
pub open spec fn spec_apply_edit(chars: Seq<char>, change: ContentChange) -> Seq<char> {
    if spec_edit_valid(chars, change) {
        let bytes = encode_utf8(chars);
        let range = change.range->Some_0;
        let start_byte = spec_line_start(bytes, range.start.line as nat)
            + range.start.character as int;
        let end_byte = spec_line_start(bytes, range.end.line as nat)
            + range.end.character as int;
        chars.take(spec_byte_to_char(chars, start_byte)) + change.text@ + chars.skip(
            spec_byte_to_char(chars, end_byte),
        )
    } else {
        chars
    }
}

/// A batch of edits applied in the order received, each against the
/// buffer state the previous ones left.
pub open spec fn spec_apply_changes(chars: Seq<char>, changes: Seq<ContentChange>) -> Seq<char>
    decreases changes.len(),
{
    if changes.len() == 0 {
        chars
    } else {
        spec_apply_edit(spec_apply_changes(chars, changes.drop_last()), changes.last())
    }
}

impl Default for FileDatabase {
    /// An empty store.
    fn default() -> (r: FileDatabase)
        ensures
            r.files@ =~= Seq::<(String, SourceFile)>::empty(),
    {
        FileDatabase { files: Vec::new() }
    }
}

impl FileDatabase {
    /// An empty store.
    pub fn new() -> (r: FileDatabase)
        ensures
            r.files@ =~= Seq::<(String, SourceFile)>::empty(),
    {
        FileDatabase { files: Vec::new() }
    }

    /// The stored file under the given path, if one is open.
    pub fn get_file(&self, path: &str) -> (r: Option<&SourceFile>)
        ensures
            match r {
                Some(f) => spec_find_file(self.files@, path@) == Some(*f),
                None => spec_find_file(self.files@, path@) is None,
            },
    {
        match find_index(&self.files, path) {
            Some(k) => {
                proof {
                    lemma_find_file_first_match(self.files@, k as int, path@);
                }
                Some(&self.files[k].1)
            },
            None => {
                proof {
                    lemma_find_file_absent(self.files@, path@);
                }
                None
            },
        }
    }

    /// Opens a file: parses the text and stores buffer and tree together,
    /// replacing any prior entry for the path and touching no other
    /// entry. A text the parser refuses leaves the store unchanged.
    pub fn file_opened(&mut self, file_path: &str, file_content: String)
        requires
            files_wf(old(self).files@),
        ensures
            files_wf(final(self).files@),
            parsed_tree(file_content@) is None ==> final(self).files@ == old(self).files@,
            parsed_tree(file_content@) matches Some(root) ==> (spec_find_file(
                final(self).files@,
                file_path@,
            ) matches Some(f) && rope_chars(f.content) == file_content@ && f.syntax == root),
            parsed_tree(file_content@) is Some ==> {
                &&& old(self).files@.len() <= final(self).files@.len() <= old(self).files@.len()
                    + 1
                &&& forall|i: int|
                    0 <= i < old(self).files@.len() ==> (#[trigger] final(self).files@[i]).0
                        == old(self).files@[i].0
                &&& forall|i: int|
                    0 <= i < old(self).files@.len() && old(self).files@[i].0@ != file_path@
                        ==> final(self).files@[i] == old(self).files@[i]
                &&& final(self).files@.len() == old(self).files@.len() + 1 ==> final(
                    self
                ).files@[old(self).files@.len() as int].0@ == file_path@
            },
    {
        let parsed = parse_snapshot(file_content.as_str(), None);
        let (tree, root) = match parsed {
            Some(p) => p,
            None => {
                return ;
            },
        };
        let rope = rope_from_str(file_content.as_str());
        let source = SourceFile { content: rope, tree, syntax: root };
        match find_index(&self.files, file_path) {
            Some(k) => {
                let entry = &mut self.files[k];
                entry.1 = source;
                proof {
                    assert forall|i: int|
                        0 <= i < self.files@.len() implies file_synced(
                        (#[trigger] self.files@[i]).1,
                    ) by {
                        if i != k {
                            assert(self.files@[i] == old(self).files@[i]);
                        }
                    }
                    assert forall|i: int, j: int|
                        0 <= i < j < self.files@.len() implies (#[trigger] self.files@[i]).0@ != (
                    #[trigger] self.files@[j]).0@ by {
                        assert(self.files@[i].0 == old(self).files@[i].0);
                        assert(self.files@[j].0 == old(self).files@[j].0);
                    }
                    lemma_find_file_first_match(self.files@, k as int, file_path@);
                }
            },
            None => {
                self.files.push((String::from_str(file_path), source));
                proof {
                    let k = self.files@.len() - 1;
                    assert forall|i: int|
                        0 <= i < self.files@.len() implies file_synced(
                        (#[trigger] self.files@[i]).1,
                    ) by {
                        if i < k {
                            assert(self.files@[i] == old(self).files@[i]);
                        }
                    }
                    assert forall|i: int, j: int|
                        0 <= i < j < self.files@.len() implies (#[trigger] self.files@[i]).0@ != (
                    #[trigger] self.files@[j]).0@ by {
                        if j < k {
                            assert(self.files@[i] == old(self).files@[i]);
                            assert(self.files@[j] == old(self).files@[j]);
                        } else {
                            assert(self.files@[i] == old(self).files@[i]);
                        }
                    }
                    lemma_find_file_first_match(self.files@, k, file_path@);
                }
            },
        }
    }

    /// Applies a batch of edits to an open file: each edit, in order,
    /// addresses the byte range its protocol positions denote (the
    /// line's start byte plus the column) against the buffer as the
    /// previous edits left it, replaces it with the edit's text, and
    /// tells the stored tree the same replacement in byte and
    /// row/column terms; after the whole batch the tree is reparsed
    /// against the final text, reusing the edited tree as a hint.
    /// Edits for a path that is not open, and edits whose positions
    /// fall outside the buffer or inside a multi-byte character, are
    /// dropped whole — never half-applied. Entries under every other
    /// path are untouched.
    #[verifier::rlimit(50)]
    pub fn file_changed(&mut self, file_path: &str, content_changes: &Vec<ContentChange>)
        requires
            files_wf(old(self).files@),
        ensures
            files_wf(final(self).files@),
            final(self).files@.len() == old(self).files@.len(),
            forall|i: int|
                0 <= i < old(self).files@.len() ==> (#[trigger] final(self).files@[i]).0 == old(
                    self,
                ).files@[i].0,
            forall|i: int|
                0 <= i < old(self).files@.len() && old(self).files@[i].0@ != file_path@
                    ==> final(self).files@[i] == old(self).files@[i],
            spec_find_file(old(self).files@, file_path@) is None ==> final(self).files@ == old(
                self,
            ).files@,
            spec_find_file(old(self).files@, file_path@) matches Some(f) ==> (spec_find_file(
                final(self).files@,
                file_path@,
            ) matches Some(g) && rope_chars(g.content) == spec_apply_changes(
                rope_chars(f.content),
                content_changes@,
            )),
    {
        let k = match find_index(&self.files, file_path) {
            Some(k) => k,
            None => {
                proof {
                    lemma_find_file_absent(self.files@, file_path@);
                }
                return ;
            },
        };
        proof {
            lemma_find_file_first_match(self.files@, k as int, file_path@);
        }
        proof {
            assert(file_synced(old(self).files@[k as int].1));
        }
        let entry = &mut self.files[k];
        let ghost orig_key = entry.0;
        let ghost orig_chars = rope_chars(entry.1.content);
        let m = content_changes.len();
        proof {
            assert(content_changes@.take(0) =~= Seq::<ContentChange>::empty());
        }
        let mut i: usize = 0;
        while i < m
            invariant
                m == content_changes@.len(),
                i <= m,
                entry.0 == orig_key,
                entry.1.tree.spec_text() == rope_chars(entry.1.content),
                rope_chars(entry.1.content) == spec_apply_changes(
                    orig_chars,
                    content_changes@.take(i as int),
                ),
            decreases m - i,
        {
            let change = &content_changes[i];
            proof {
                assert(content_changes@.take(i as int + 1).drop_last() =~= content_changes@.take(
                    i as int,
                ));
                assert(content_changes@.take(i as int + 1).last() == content_changes@[i as int]);
            }
            if let Some(range) = change.range {
                let len_lines = rope_len_lines(&entry.1.content);
                let len_bytes = rope_len_bytes(&entry.1.content);
                let row0 = range.start.line as usize;
                let col0 = range.start.character as usize;
                let row1 = range.end.line as usize;
                let col1 = range.end.character as usize;
                if row0 < len_lines && row1 < len_lines {
                    let ls0 = rope_line_to_byte(&entry.1.content, row0);
                    let ls1 = rope_line_to_byte(&entry.1.content, row1);
                    proof {
                        lemma_line_start_le_len(
                            encode_utf8(rope_chars(entry.1.content)),
                            row0 as nat,
                        );
                        lemma_line_start_le_len(
                            encode_utf8(rope_chars(entry.1.content)),
                            row1 as nat,
                        );
                    }
                    if col0 <= len_bytes - ls0 && col1 <= len_bytes - ls1 {
                        let start_byte = ls0 + col0;
                        let old_end_byte = ls1 + col1;
                        if start_byte <= old_end_byte {
                            let start_char = rope_byte_to_char(&entry.1.content, start_byte);
                            let end_char = rope_byte_to_char(&entry.1.content, old_end_byte);
                            proof {
                                lemma_byte_to_char_le_len(
                                    rope_chars(entry.1.content),
                                    start_byte as int,
                                );
                                lemma_byte_to_char_le_len(
                                    rope_chars(entry.1.content),
                                    old_end_byte as int,
                                );
                                lemma_byte_to_char_monotone(
                                    rope_chars(entry.1.content),
                                    start_byte as int,
                                    old_end_byte as int,
                                );
                            }
                            let start_back = rope_char_to_byte(&entry.1.content, start_char);
                            let end_back = rope_char_to_byte(&entry.1.content, end_char);
                            let start_row = rope_byte_to_line(&entry.1.content, start_byte);
                            let end_row = rope_byte_to_line(&entry.1.content, old_end_byte);
                            if start_back == start_byte && end_back == old_end_byte && start_row
                                == row0 && end_row == row1 {
                                let ghost pre_chars = rope_chars(entry.1.content);
                                rope_remove(&mut entry.1.content, start_char, end_char);
                                if !change.text.as_str().is_empty() {
                                    rope_insert(
                                        &mut entry.1.content,
                                        start_char,
                                        change.text.as_str(),
                                    );
                                }
                                proof {
                                    let removed = pre_chars.take(start_char as int)
                                        + pre_chars.skip(end_char as int);
                                    assert(removed.take(start_char as int) =~= pre_chars.take(
                                        start_char as int,
                                    ));
                                    assert(removed.skip(start_char as int) =~= pre_chars.skip(
                                        end_char as int,
                                    ));
                                    if change.text@.len() == 0 {
                                        assert(rope_chars(entry.1.content) =~= pre_chars.take(
                                            start_char as int,
                                        ) + change.text@ + pre_chars.skip(end_char as int));
                                    }
                                }
                                let (breaks, last_start) = count_text_breaks(
                                    change.text.as_str(),
                                );
                                let text_bytes = change.text.as_str().len();
                                let new_len_bytes = rope_len_bytes(&entry.1.content);
                                proof {
                                    let c0 = start_char as int;
                                    let c1 = end_char as int;
                                    let now = rope_chars(entry.1.content);
                                    lemma_encode_split(pre_chars, c0);
                                    lemma_encode_split(pre_chars, c1);
                                    lemma_encode_utf8_concat(pre_chars.take(c0), change.text@);
                                    lemma_encode_utf8_concat(
                                        pre_chars.take(c0) + change.text@,
                                        pre_chars.skip(c1),
                                    );
                                    assert(now =~= (pre_chars.take(c0) + change.text@)
                                        + pre_chars.skip(c1));
                                    assert(encode_utf8(now) == encode_utf8(pre_chars.take(c0))
                                        + encode_utf8(change.text@) + encode_utf8(
                                        pre_chars.skip(c1),
                                    ));
                                }
                                let new_end_byte = start_byte + text_bytes;
                                proof {
                                    let c0 = start_char as int;
                                    let c1 = end_char as int;
                                    let now = rope_chars(entry.1.content);
                                    let old_b = encode_utf8(pre_chars);
                                    let new_b = encode_utf8(now);
                                    assert(new_b.take(start_byte as int) =~= encode_utf8(
                                        pre_chars.take(c0),
                                    ));
                                    assert(old_b.take(start_byte as int) =~= encode_utf8(
                                        pre_chars.take(c0),
                                    ));
                                    assert(new_b.skip(new_end_byte as int) =~= encode_utf8(
                                        pre_chars.skip(c1),
                                    ));
                                    assert(old_b.skip(old_end_byte as int) =~= encode_utf8(
                                        pre_chars.skip(c1),
                                    ));
                                    assert(new_b.take(new_end_byte as int) =~= encode_utf8(
                                        pre_chars.take(c0),
                                    ) + encode_utf8(change.text@));
                                    lemma_count_lf_concat(
                                        encode_utf8(pre_chars.take(c0)),
                                        encode_utf8(change.text@),
                                    );
                                    assert(spec_count_lf(new_b.take(new_end_byte as int)) == row0
                                        + breaks);
                                    lemma_count_lf_le_len(new_b.take(new_end_byte as int));
                                    lemma_breaks_before_line_start(old_b, row0 as nat);
                                    assert(old_b.take(start_byte as int) =~= old_b.take(
                                        ls0 as int,
                                    ) + old_b.subrange(ls0 as int, start_byte as int));
                                    lemma_count_lf_concat(
                                        old_b.take(ls0 as int),
                                        old_b.subrange(ls0 as int, start_byte as int),
                                    );
                                    lemma_edit_round_trip(
                                        old_b,
                                        encode_utf8(change.text@),
                                        row0 as nat,
                                        col0 as nat,
                                        old_end_byte as int,
                                    );
                                    assert(old_b.take(start_byte as int) + encode_utf8(
                                        change.text@,
                                    ) + old_b.skip(old_end_byte as int) =~= new_b);
                                    lemma_line_start_le_len(new_b, (row0 + breaks) as nat);
                                }
                                let new_row = row0 + breaks;
                                let new_col = if breaks == 0 {
                                    col0 + text_bytes
                                } else {
                                    text_bytes - last_start
                                };
                                tree_edit(
                                    &mut entry.1.tree,
                                    &entry.1.content,
                                    start_byte,
                                    old_end_byte,
                                    new_end_byte,
                                    (row0, col0),
                                    (row1, col1),
                                    (new_row, new_col),
                                );
                            }
                        }
                    }
                }
            }
            i += 1;
        }
        proof {
            assert(content_changes@.take(m as int) =~= content_changes@);
        }
        let text = rope_to_string(&entry.1.content);
        match parse_snapshot(text.as_str(), Some(&entry.1.tree)) {
            Some(p) => {
                entry.1.tree = p.0;
                entry.1.syntax = p.1;
            },
            None => {},
        }
        proof {
            assert forall|i: int|
                0 <= i < self.files@.len() implies file_synced((#[trigger] self.files@[i]).1) by {
                if i != k {
                    assert(self.files@[i] == old(self).files@[i]);
                }
            }
            assert forall|i: int, j: int|
                0 <= i < j < self.files@.len() implies (#[trigger] self.files@[i]).0@ != (
            #[trigger] self.files@[j]).0@ by {
                assert(self.files@[i].0 == old(self).files@[i].0);
                assert(self.files@[j].0 == old(self).files@[j].0);
            }
            lemma_find_file_first_match(self.files@, k as int, file_path@);
        }
    }

    /// Closes a file: drops the entry under the path (and nothing
    /// else), so later queries for the path behave as "file not found".
    pub fn file_closed(&mut self, file_path: &str)
        requires
            files_wf(old(self).files@),
        ensures
            files_wf(final(self).files@),
            spec_find_file(final(self).files@, file_path@) is None,
            final(self).files@ == old(self).files@ || exists|k: int|
                0 <= k < old(self).files@.len() && old(self).files@[k].0@ == file_path@ && final(
                    self
                ).files@ == old(self).files@.remove(k),
    {
        match find_index(&self.files, file_path) {
            Some(k) => {
                let ghost pre = self.files@;
                self.files.remove(k);
                proof {
                    assert(self.files@ == old(self).files@.remove(k as int));
                    assert forall|i: int|
                        0 <= i < self.files@.len() implies file_synced(
                        (#[trigger] self.files@[i]).1,
                    ) by {
                        assert(self.files@[i] == if i < k {
                            pre[i]
                        } else {
                            pre[i + 1]
                        });
                    }
                    assert forall|i: int, j: int|
                        0 <= i < j < self.files@.len() implies (#[trigger] self.files@[i]).0@ != (
                    #[trigger] self.files@[j]).0@ by {
                        assert(self.files@[i] == if i < k {
                            pre[i]
                        } else {
                            pre[i + 1]
                        });
                        assert(self.files@[j] == if j < k {
                            pre[j]
                        } else {
                            pre[j + 1]
                        });
                    }
                    assert forall|j: int|
                        0 <= j < self.files@.len() implies (#[trigger] self.files@[j]).0@
                        != file_path@ by {
                        assert(self.files@[j] == if j < k {
                            pre[j]
                        } else {
                            pre[j + 1]
                        });
                    }
                    lemma_find_file_absent(self.files@, file_path@);
                }
            },
            None => {
                proof {
                    lemma_find_file_absent(self.files@, file_path@);
                }
            },
        }
    }
}

} // verus!
