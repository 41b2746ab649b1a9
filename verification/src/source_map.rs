//! The registry of source files: file id -> text and line table.
//!
//! Positions are byte offsets; lines count from 1, and columns count
//! characters (not bytes) from 1.
use vstd::prelude::*;
use vstd::string::*;
use vstd::utf8::*;

use crate::text::{dec, dec_chars, push_char, push_dec, push_repeat, push_rjust, push_str, repeat_char, rjust, string_of};

verus! {

broadcast use vstd::utf8::encode_utf8_valid_utf8, vstd::utf8::encode_utf8_decode_utf8;

/// The UTF-8 bytes of a text.
pub open spec fn utf8_of(s: Seq<char>) -> Seq<u8> {
    encode_utf8(s)
}

/// The newline byte.
pub open spec fn is_newline_byte(b: u8) -> bool {
    b == 10u8
}

/// Number of newline bytes in `b`.
pub open spec fn count_newlines(b: Seq<u8>) -> nat
    decreases b.len(),
{
    if b.len() == 0 {
        0
    } else {
        count_newlines(b.drop_last()) + if is_newline_byte(b.last()) {
            1nat
        } else {
            0nat
        }
    }
}

/// Number of bytes of `b` that start a character (the non-continuation
/// bytes): the number of characters that `b` encodes.
pub open spec fn count_chars(b: Seq<u8>) -> nat
    decreases b.len(),
{
    if b.len() == 0 {
        0
    } else {
        count_chars(b.drop_last()) + if is_continuation_byte(b.last()) {
            0nat
        } else {
            1nat
        }
    }
}

/// The byte offsets at which the lines of `b` start: 0, then one past
/// every newline byte.
pub open spec fn line_starts_of(b: Seq<u8>) -> Seq<u32>
    decreases b.len(),
{
    if b.len() == 0 {
        seq![0u32]
    } else {
        let p = line_starts_of(b.drop_last());
        if is_newline_byte(b.last()) {
            p.push(b.len() as u32)
        } else {
            p
        }
    }
}

/// The end of a line's text: `end`, moved back over trailing '\n' and '\r'
/// bytes (never before `start`).
pub open spec fn trim_line_end(b: Seq<u8>, start: int, end: int) -> int
    decreases end - start,
{
    if end > start && (b[end - 1] == 10u8 || b[end - 1] == 13u8) {
        trim_line_end(b, start, end - 1)
    } else {
        end
    }
}

/// The first offset that is not past the end of `b`.
pub open spec fn clamp(b: Seq<u8>, offset: u32) -> int {
    if (offset as int) < b.len() {
        offset as int
    } else {
        b.len() as int
    }
}

/// `offset` (clamped to the text) starts a character.
pub open spec fn at_char_start(b: Seq<u8>, offset: u32) -> bool {
    (offset as int) >= b.len() || !is_continuation_byte(b[offset as int])
}

proof fn lemma_line_starts_shape(b: Seq<u8>)
    requires
        b.len() <= u32::MAX,
    ensures
        line_starts_of(b).len() == count_newlines(b) + 1,
        line_starts_of(b)[0] == 0,
        forall|k: int|
            0 <= k < line_starts_of(b).len() ==> #[trigger] line_starts_of(b)[k] <= b.len(),
        forall|k1: int, k2: int|
            0 <= k1 < k2 < line_starts_of(b).len() ==> line_starts_of(b)[k1] < line_starts_of(b)[k2],
        forall|k: int|
            1 <= k < line_starts_of(b).len() ==> is_newline_byte(
                b[#[trigger] line_starts_of(b)[k] - 1],
            ),
    decreases b.len(),
{
    if b.len() > 0 {
        let d = b.drop_last();
        lemma_line_starts_shape(d);
        assert forall|k: int| 1 <= k < line_starts_of(b).len() implies is_newline_byte(
            b[#[trigger] line_starts_of(b)[k] - 1],
        ) by {
            if k < line_starts_of(d).len() {
                assert(line_starts_of(b)[k] == line_starts_of(d)[k]);
                assert(1 <= line_starts_of(d)[k] <= d.len()) by {
                    assert(line_starts_of(d)[0] < line_starts_of(d)[k]);
                }
                assert(b[line_starts_of(d)[k] - 1] == d[line_starts_of(d)[k] - 1]);
            }
        }
    }
}

/// The line table of a prefix is a prefix of the whole table.
proof fn lemma_line_starts_prefix(b: Seq<u8>, j: int)
    requires
        0 <= j <= b.len(),
    ensures
        line_starts_of(b.subrange(0, j)) == line_starts_of(b).subrange(
            0,
            line_starts_of(b.subrange(0, j)).len() as int,
        ),
        line_starts_of(b.subrange(0, j)).len() <= line_starts_of(b).len(),
    decreases b.len(),
{
    if j == b.len() {
        assert(b.subrange(0, j) =~= b);
        assert(line_starts_of(b).subrange(0, line_starts_of(b).len() as int) =~= line_starts_of(b));
    } else {
        let d = b.drop_last();
        assert(b.subrange(0, j) =~= d.subrange(0, j));
        lemma_line_starts_prefix(d, j);
        let p = line_starts_of(b.subrange(0, j));
        assert(line_starts_of(b).subrange(0, p.len() as int) =~= line_starts_of(d).subrange(
            0,
            p.len() as int,
        ));
    }
}

/// An ASCII byte of valid UTF-8 is a character, so both of its edges are
/// character boundaries.
proof fn lemma_ascii_boundaries(b: Seq<u8>, i: int)
    requires
        valid_utf8(b),
        0 <= i < b.len(),
        b[i] < 0x80,
    ensures
        is_char_boundary(b, i),
        is_char_boundary(b, i + 1),
    decreases b.len(),
{
    let l = length_of_first_scalar(b);
    let rest = pop_first_scalar(b);
    if i < l {
        if i > 0 {
            assert(is_continuation_byte(b[i]));
        }
        assert(l == 1);
        reveal_with_fuel(is_char_boundary, 2);
    } else {
        assert(rest[i - l] == b[i]);
        lemma_ascii_boundaries(rest, i - l);
        reveal_with_fuel(is_char_boundary, 2);
    }
}

/// One source file: its name, its text and the byte offsets of its lines.
#[derive(Debug, Clone)]
pub struct SourceFile {
    /// The name shown in positions.
    pub name: String,
    /// The source text.
    pub src: String,
    /// The byte offsets at which the lines start (see `wf`).
    pub line_starts: Vec<u32>,
}

/// The line and column that a byte offset of `b` falls on: line 1 plus the
/// newlines before it, column 1 plus the characters between its line's
/// start and it.
pub open spec fn spec_line_col(b: Seq<u8>, offset: u32) -> (u32, u32) {
    let off = clamp(b, offset);
    let before = b.subrange(0, off);
    let line_start = line_starts_of(before).last();
    (
        (count_newlines(before) + 1) as u32,
        (count_chars(b.subrange(line_start as int, off)) + 1) as u32,
    )
}

/// The text of line `line` (from 1) of `b` without its line break; empty
/// when there is no such line.
pub open spec fn spec_line_text(b: Seq<u8>, line: u32) -> Seq<char> {
    let starts = line_starts_of(b);
    let idx = if line == 0 { 0int } else { line - 1 };
    if idx >= starts.len() {
        Seq::empty()
    } else {
        let start = starts[idx] as int;
        let end = if idx + 1 < starts.len() { starts[idx + 1] as int } else { b.len() as int };
        decode_utf8(b.subrange(start, trim_line_end(b, start, end)))
    }
}

/// The text of the line that `offset` falls on, followed by a marker line
/// whose '^' stands under the offset's column:
/// `"{line:>4} | {text}\n     | {spaces}^"`.
pub open spec fn spec_excerpt(b: Seq<u8>, offset: u32) -> Seq<char> {
    let (line, col) = spec_line_col(b, offset);
    rjust(dec(line as nat), 4, ' ') + " | "@ + spec_line_text(b, line) + "\n     | "@
        + repeat_char(' ', if col >= 1 { (col - 1) as nat } else { 0 }) + "^"@
}

/// `"{name}:{line}:{col}"`, followed by `" (expansion {id})"` when the
/// generation is positive.
pub open spec fn spec_location(name: Seq<char>, b: Seq<u8>, offset: u32, expansion_id: u32) -> Seq<
    char,
> {
    let (line, col) = spec_line_col(b, offset);
    let base = name + ":"@ + dec(line as nat) + ":"@ + dec(col as nat);
    if expansion_id > 0 {
        base + " (expansion "@ + dec(expansion_id as nat) + ")"@
    } else {
        base
    }
}

/// What `SourceMap::render_location` yields for the files `files`.
pub open spec fn spec_render_location(files: Seq<SourceFile>, file_id: u32, offset: u32, expansion_id: u32) -> Seq<char> {
    if (file_id as int) < files.len() {
        spec_location(files[file_id as int].name@, files[file_id as int].bytes(), offset, expansion_id)
    } else {
        "<unknown file "@ + dec(file_id as nat) + ">"@
    }
}

/// What `SourceMap::excerpt` yields for the files `files`.
pub open spec fn spec_render_excerpt(files: Seq<SourceFile>, file_id: u32, offset: u32) -> Seq<char> {
    if (file_id as int) < files.len() {
        spec_excerpt(files[file_id as int].bytes(), offset)
    } else {
        Seq::empty()
    }
}

/// The byte offsets of the line starts of `src`.
pub fn compute_line_starts(src: &str) -> (v: Vec<u32>)
    requires
        src.spec_bytes().len() <= u32::MAX,
    ensures
        v@ == line_starts_of(src.spec_bytes()),
{
    let bytes = src.as_bytes();
    let mut v: Vec<u32> = Vec::new();
    v.push(0);
    let mut i: usize = 0;
    proof {
        assert(bytes@.subrange(0, 0) =~= Seq::<u8>::empty());
        assert(v@ =~= seq![0u32]);
    }
    while i < bytes.len()
        invariant
            bytes@ == src.spec_bytes(),
            bytes@.len() <= u32::MAX,
            0 <= i <= bytes@.len(),
            v@ == line_starts_of(bytes@.subrange(0, i as int)),
        decreases bytes@.len() - i,
    {
        proof {
            assert(bytes@.subrange(0, i + 1).drop_last() =~= bytes@.subrange(0, i as int));
        }
        if bytes[i] == 10u8 {
            v.push((i + 1) as u32);
        }
        i = i + 1;
    }
    proof {
        assert(bytes@.subrange(0, i as int) =~= bytes@);
    }
    v
}

impl SourceFile {
    /// The file's invariant: its text fits 32-bit offsets and its line
    /// table is the table of its text.
    pub open spec fn wf(&self) -> bool {
        &&& self.bytes().len() < u32::MAX
        &&& self.line_table() == line_starts_of(self.bytes())
    }

    /// The UTF-8 bytes of the text.
    pub open spec fn bytes(&self) -> Seq<u8> {
        utf8_of(self.src@)
    }

    /// The line table.
    pub open spec fn line_table(&self) -> Seq<u32> {
        self.line_starts@
    }

    /// A file named `name` holding `src`.
    pub fn new(name: &str, src: &str) -> (f: SourceFile)
        requires
            src.spec_bytes().len() < u32::MAX,
        ensures
            f.wf(),
            f.name@ == name@,
            f.src@ == src@,
    {
        let line_starts = compute_line_starts(src);
        SourceFile { name: string_of(name), src: string_of(src), line_starts }
    }

    /// Byte offset -> (line, column), both from 1; the column counts
    /// characters.  Offsets past the end count as the end.
    pub fn line_col(&self, offset: u32) -> (lc: (u32, u32))
        requires
            self.wf(),
            at_char_start(self.bytes(), offset),
        ensures
            lc == spec_line_col(self.bytes(), offset),
    {
        let bytes = self.src.as_str().as_bytes();
        let ghost b = bytes@;
        let off: usize = if (offset as usize) < bytes.len() {
            offset as usize
        } else {
            bytes.len()
        };
        // lines: newlines before the offset, and the start of its line
        let mut newlines: u32 = 0;
        let mut line_start: usize = 0;
        let mut i: usize = 0;
        proof {
            assert(b.subrange(0, 0) =~= Seq::<u8>::empty());
        }
        while i < off
            invariant
                b == self.bytes(),
                bytes@ == b,
                b.len() < u32::MAX,
                0 <= i <= off <= b.len(),
                newlines == count_newlines(b.subrange(0, i as int)),
                newlines <= i,
                line_start == line_starts_of(b.subrange(0, i as int)).last(),
            decreases off - i,
        {
            proof {
                assert(b.subrange(0, i + 1).drop_last() =~= b.subrange(0, i as int));
            }
            if bytes[i] == 10u8 {
                newlines = newlines + 1;
                line_start = i + 1;
            }
            i = i + 1;
        }
        proof {
            lemma_line_starts_shape(b.subrange(0, off as int));
        }
        // columns: characters between the line start and the offset
        let mut chars: u32 = 0;
        let mut j: usize = line_start;
        proof {
            assert(b.subrange(line_start as int, line_start as int) =~= Seq::<u8>::empty());
        }
        while j < off
            invariant
                b == self.bytes(),
                bytes@ == b,
                b.len() < u32::MAX,
                line_start <= j <= off <= b.len(),
                chars == count_chars(b.subrange(line_start as int, j as int)),
                chars <= j - line_start,
            decreases off - j,
        {
            proof {
                assert(b.subrange(line_start as int, j + 1).drop_last() =~= b.subrange(
                    line_start as int,
                    j as int,
                ));
            }
            if !(bytes[j] >= 0x80u8 && bytes[j] <= 0xbfu8) {
                chars = chars + 1;
            }
            j = j + 1;
        }
        (newlines + 1, chars + 1)
    }

    /// The text of line `line` (from 1) without its line break; empty when
    /// there is no such line.
    pub fn line_text(&self, line: u32) -> (t: &str)
        requires
            self.wf(),
        ensures
            t@ == spec_line_text(self.bytes(), line),
    {
        let ghost b = self.bytes();
        proof {
            lemma_line_starts_shape(b);
        }
        let idx: usize = if line == 0 { 0 } else { (line - 1) as usize };
        if idx >= self.line_starts.len() {
            proof {
                reveal_strlit("");
            }
            return "";
        }
        let s = self.src.as_str();
        let bytes = s.as_bytes();
        let start = self.line_starts[idx] as usize;
        let end: usize = if idx + 1 < self.line_starts.len() {
            self.line_starts[idx + 1] as usize
        } else {
            bytes.len()
        };
        let mut e = end;
        while e > start && (bytes[e - 1] == 10u8 || bytes[e - 1] == 13u8)
            invariant
                bytes@ == b,
                start <= e <= end <= b.len(),
                forall|k: int| e <= k < end ==> b[k] == 10u8 || b[k] == 13u8,
                trim_line_end(b, start as int, e as int) == trim_line_end(
                    b,
                    start as int,
                    end as int,
                ),
            decreases e - start,
        {
            e = e - 1;
        }
        proof {
            // both edges of the line's text are character boundaries
            if start > 0 {
                assert(is_newline_byte(b[start - 1]));
                lemma_ascii_boundaries(b, start - 1);
            }
            if e < b.len() {
                if e < end {
                    lemma_ascii_boundaries(b, e as int);
                } else {
                    assert(is_newline_byte(b[end - 1]));
                    assert(false);
                }
            } else {
                is_char_boundary_start_end_of_seq(b);
            }
            is_char_boundary_start_end_of_seq(b);
            valid_utf8_split(b, start as int);
        }
        let (_, rest) = s.split_at(start);
        proof {
            let r = rest.spec_bytes();
            assert(r =~= b.subrange(start as int, b.len() as int));
            if e < b.len() {
                assert(r[e - start] == b[e as int]);
                is_char_boundary_iff_not_is_continuation_byte(r, e - start);
                is_char_boundary_iff_not_is_continuation_byte(b, e as int);
            } else {
                is_char_boundary_start_end_of_seq(r);
            }
        }
        let (mid, _) = rest.split_at(e - start);
        proof {
            assert(mid.spec_bytes() =~= b.subrange(start as int, e as int));
            assert(mid@ == decode_utf8(encode_utf8(mid@)));
        }
        mid
    }
}

/// The registry of source files.
#[derive(Debug, Clone)]
pub struct SourceMap {
    files: Vec<SourceFile>,
}

impl View for SourceMap {
    type V = Seq<SourceFile>;

    closed spec fn view(&self) -> Seq<SourceFile> {
        self.files@
    }
}

impl SourceMap {
    /// Every file is well formed.
    pub open spec fn wf(&self) -> bool {
        forall|i: int| 0 <= i < self@.len() ==> (#[trigger] self@[i]).wf()
    }

    /// Offset `offset` of file `file_id` starts a character (or the file
    /// is unknown).
    pub open spec fn position_ok(&self, file_id: u32, offset: u32) -> bool {
        (file_id as int) < self@.len() ==> at_char_start(self@[file_id as int].bytes(), offset)
    }

    /// An empty registry.
    pub fn new() -> (m: SourceMap)
        ensures
            m.wf(),
            m@ == Seq::<SourceFile>::empty(),
    {
        SourceMap { files: Vec::new() }
    }

    /// Registers a file and returns its id (the number of files before it).
    pub fn add_file(&mut self, name: &str, src: &str) -> (id: u32)
        requires
            old(self).wf(),
            old(self)@.len() < u32::MAX,
            src.spec_bytes().len() < u32::MAX,
        ensures
            final(self).wf(),
            id == old(self)@.len(),
            final(self)@.len() == old(self)@.len() + 1,
            final(self)@.subrange(0, id as int) == old(self)@,
            final(self)@[id as int].name@ == name@,
            final(self)@[id as int].src@ == src@,
    {
        let id = self.files.len() as u32;
        self.files.push(SourceFile::new(name, src));
        proof {
            assert(self@.subrange(0, id as int) =~= old(self)@);
        }
        id
    }

    /// Whether offset `offset` of file `file_id` starts a character (an
    /// unknown file accepts every offset).
    pub fn position_is_ok(&self, file_id: u32, offset: u32) -> (b: bool)
        ensures
            b == self.position_ok(file_id, offset),
    {
        match self.file(file_id) {
            None => true,
            Some(f) => {
                let bytes = f.src.as_str().as_bytes();
                if (offset as usize) < bytes.len() {
                    let x = bytes[offset as usize];
                    !(0x80u8 <= x && x <= 0xbfu8)
                } else {
                    true
                }
            },
        }
    }

    /// The file `file_id`, or `None` when there is no such file.
    pub fn file(&self, file_id: u32) -> (f: Option<&SourceFile>)
        ensures
            (file_id as int) < self@.len() ==> f == Some(&self@[file_id as int]),
            (file_id as int) >= self@.len() ==> f.is_none(),
    {
        if (file_id as usize) < self.files.len() {
            Some(&self.files[file_id as usize])
        } else {
            None
        }
    }

    /// Number of files.
    pub fn len(&self) -> (n: usize)
        ensures
            n == self@.len(),
    {
        self.files.len()
    }

    /// Whether there is no file.
    pub fn is_empty(&self) -> (b: bool)
        ensures
            b == (self@.len() == 0),
    {
        self.files.len() == 0
    }

    /// A readable position, "main.krf:3:5", with " (expansion N)" for
    /// expansion products; "<unknown file N>" for an unknown file.
    pub fn render_location(&self, file_id: u32, offset: u32, expansion_id: u32) -> (s: String)
        requires
            self.wf(),
            self.position_ok(file_id, offset),
        ensures
            s@ == spec_render_location(self@, file_id, offset, expansion_id),
    {
        match self.file(file_id) {
            Some(f) => {
                let (line, col) = f.line_col(offset);
                let mut s = String::new();
                push_str(&mut s, f.name.as_str());
                push_char(&mut s, ':');
                push_dec(&mut s, line as u64);
                push_char(&mut s, ':');
                push_dec(&mut s, col as u64);
                if expansion_id > 0 {
                    push_str(&mut s, " (expansion ");
                    push_dec(&mut s, expansion_id as u64);
                    push_char(&mut s, ')');
                }
                proof {
                    reveal_strlit(":");
                    reveal_strlit(" (expansion ");
                    reveal_strlit(")");
                    let name = f.name@;
                    let base = name + ":"@ + dec(line as nat) + ":"@ + dec(col as nat);
                    if expansion_id > 0 {
                        assert(s@ =~= base + " (expansion "@ + dec(expansion_id as nat) + ")"@);
                    } else {
                        assert(s@ =~= base);
                    }
                }
                s
            },
            None => {
                let mut s = String::new();
                push_str(&mut s, "<unknown file ");
                push_dec(&mut s, file_id as u64);
                push_char(&mut s, '>');
                proof {
                    reveal_strlit(">");
                    assert(s@ =~= "<unknown file "@ + dec(file_id as nat) + ">"@);
                }
                s
            },
        }
    }

    /// The excerpt of the line that `offset` falls on, with a '^' under its
    /// column; empty for an unknown file.
    pub fn excerpt(&self, file_id: u32, offset: u32) -> (s: String)
        requires
            self.wf(),
            self.position_ok(file_id, offset),
        ensures
            s@ == spec_render_excerpt(self@, file_id, offset),
    {
        match self.file(file_id) {
            Some(f) => {
                let (line, col) = f.line_col(offset);
                let text = f.line_text(line);
                let mut s = String::new();
                let digits = dec_chars(line as u64);
                push_rjust(&mut s, &digits, 4, ' ');
                push_str(&mut s, " | ");
                push_str(&mut s, text);
                push_str(&mut s, "\n     | ");
                let pad: usize = if col >= 1 { (col - 1) as usize } else { 0 };
                push_repeat(&mut s, ' ', pad);
                push_char(&mut s, '^');
                proof {
                    reveal_strlit("^");
                    assert(s@ =~= spec_excerpt(f.bytes(), offset));
                }
                s
            },
            None => String::new(),
        }
    }
}

impl Default for SourceMap {
    fn default() -> (m: SourceMap)
        ensures
            m.wf(),
            m@ == Seq::<SourceFile>::empty(),
    {
        SourceMap::new()
    }
}

/// The start of every file is the start of a character.
pub proof fn lemma_file_start_ok(sm: SourceMap, file_id: u32)
    ensures
        sm.position_ok(file_id, 0),
{
    if (file_id as int) < sm@.len() {
        let f = sm@[file_id as int];
        if f.src@.len() > 0 {
            vstd::utf8::encode_utf8_first_scalar(f.src@);
        } else {
            assert(encode_utf8(f.src@) =~= Seq::<u8>::empty());
        }
    }
}

} // verus!
