//! From source text to symbols.
//!
//! A source is read line by line. Empty lines and lines that start with `#`
//! are passed over. Every other line gives its symbols, the runs of
//! characters between white space, and then a marker for its end. A Markdown
//! source gives only the lines inside its fenced blocks of this notation.

use crate::text::char_width;
use crate::text::is_space;
use crate::text::is_space_char;
use crate::text::spells;
use crate::text::to_chars;
use crate::text::utf8_len;
use crate::text::utf8_width;
use crate::types::CompileResult;
use crate::types::Literal;
use crate::types::LiteralView;
use vstd::prelude::*;
use vstd::string::*;
use vstd::utf8::encode_scalar;
use vstd::utf8::encode_utf8;

verus! {

/// The views of a run of literals.
pub open spec fn literals_view(literals: Seq<Literal>) -> Seq<LiteralView> {
    literals.map_values(|l: Literal| l@)
}

/// Where the line that starts at `from` ends: at the next line feed, or at
/// the end of the source.
pub open spec fn line_end(s: Seq<char>, from: int) -> int
    decreases s.len() - from,
{
    if 0 <= from < s.len() && s[from] != '\n' {
        line_end(s, from + 1)
    } else {
        from
    }
}

/// Where the text of the line that starts at `from` stops: at the end of the
/// line, or before the carriage return that stands before its line feed.
pub open spec fn line_stop(s: Seq<char>, from: int) -> int {
    let end = line_end(s, from);
    if end < s.len() && end > from && s[end - 1] == '\r' {
        end - 1
    } else {
        end
    }
}

/// Where the line after the one that starts at `from` starts.
pub open spec fn next_line(s: Seq<char>, from: int) -> int {
    let end = line_end(s, from);
    if end < s.len() {
        end + 1
    } else {
        end
    }
}

/// A line is passed over where it is empty or starts with `#`.
pub open spec fn is_passed_over(s: Seq<char>, from: int, stop: int) -> bool {
    stop <= from || s[from] == '#'
}

/// The first position from `at` up to `stop` that holds no white space, or
/// `stop`.
pub open spec fn symbol_start(s: Seq<char>, at: int, stop: int) -> int
    decreases stop - at,
{
    if at < stop && is_space(s[at]) {
        symbol_start(s, at + 1, stop)
    } else {
        at
    }
}

/// The first position from `at` up to `stop` that holds white space, or
/// `stop`.
pub open spec fn symbol_end(s: Seq<char>, at: int, stop: int) -> int
    decreases stop - at,
{
    if at < stop && !is_space(s[at]) {
        symbol_end(s, at + 1, stop)
    } else {
        at
    }
}

/// What all literals of one line share: the name of the source, the number
/// of the line, and what is added to a column.
pub struct LineFrame {
    pub filename: Seq<char>,
    pub lineno: usize,
    pub shift: nat,
}

/// The literal of the symbol from `begin` up to `end` in the line that starts
/// at `from`. Its column is the number of bytes before it in the line.
pub open spec fn symbol_literal(
    s: Seq<char>,
    from: int,
    begin: int,
    end: int,
    frame: LineFrame,
    idno: nat,
) -> LiteralView {
    LiteralView {
        literal: s.subrange(begin, end),
        filename: frame.filename,
        lineno: frame.lineno,
        colno: (utf8_len(s.subrange(from, begin)) + frame.shift) as usize,
        idno: idno as usize,
    }
}

/// The marker for the end of the line from `from` up to `stop`. Its column is
/// the number of bytes of the line.
pub open spec fn eol_literal(
    s: Seq<char>,
    from: int,
    stop: int,
    frame: LineFrame,
    idno: nat,
) -> LiteralView {
    LiteralView {
        literal: "<eol>"@,
        filename: frame.filename,
        lineno: frame.lineno,
        colno: (utf8_len(s.subrange(from, stop)) + frame.shift) as usize,
        idno: idno as usize,
    }
}

/// `taken`, then the symbols from `at` up to `stop` of the line that starts at
/// `from`. Each literal is numbered by its place among them all.
pub open spec fn with_symbols(
    s: Seq<char>,
    from: int,
    at: int,
    stop: int,
    frame: LineFrame,
    taken: Seq<LiteralView>,
) -> Seq<LiteralView>
    decreases stop - at,
{
    let begin = symbol_start(s, at, stop);
    if begin >= stop {
        taken
    } else {
        let end = symbol_end(s, begin + 1, stop);
        proof {
            lemma_symbol_bounds(s, at, stop);
            lemma_symbol_bounds(s, begin + 1, stop);
        }
        with_symbols(
            s,
            from,
            end,
            stop,
            frame,
            taken.push(symbol_literal(s, from, begin, end, frame, taken.len())),
        )
    }
}

/// `taken`, then the literals of the line from `from` up to `stop`: its
/// symbols and the marker for its end.
pub open spec fn with_line(
    s: Seq<char>,
    from: int,
    stop: int,
    frame: LineFrame,
    taken: Seq<LiteralView>,
) -> Seq<LiteralView> {
    let symbols = with_symbols(s, from, from, stop, frame, taken);
    symbols.push(eol_literal(s, from, stop, frame, symbols.len()))
}

/// `taken`, then the literals of the lines of a plain source from `from` on.
/// Lines and columns count from zero.
pub open spec fn with_lines(
    s: Seq<char>,
    from: int,
    lineno: nat,
    filename: Seq<char>,
    taken: Seq<LiteralView>,
) -> Seq<LiteralView>
    decreases s.len() - from,
{
    if from < 0 || from >= s.len() {
        taken
    } else {
        let stop = line_stop(s, from);
        let frame = LineFrame { filename: filename, lineno: lineno as usize, shift: 0 };
        proof {
            lemma_line_bounds(s, from);
        }
        with_lines(
            s,
            next_line(s, from),
            lineno + 1,
            filename,
            if is_passed_over(s, from, stop) {
                taken
            } else {
                with_line(s, from, stop, frame, taken)
            },
        )
    }
}

/// The literals of a plain source.
pub open spec fn source_literals(s: Seq<char>, filename: Seq<char>) -> Seq<LiteralView> {
    with_lines(s, 0, 0, filename, Seq::empty())
}

/// `taken`, then the literals of the lines of a Markdown source from `from`
/// on. A line that is the opening fence of this notation opens a block, a
/// line that is a bare fence closes it, and only the other lines inside a
/// block give literals. Lines and columns count from one.
pub open spec fn with_markdown_lines(
    s: Seq<char>,
    from: int,
    lineno: nat,
    filename: Seq<char>,
    inside: bool,
    taken: Seq<LiteralView>,
) -> Seq<LiteralView>
    decreases s.len() - from,
{
    if from < 0 || from >= s.len() {
        taken
    } else {
        let stop = line_stop(s, from);
        let line = s.subrange(from, stop);
        let frame = LineFrame { filename: filename, lineno: (lineno + 1) as usize, shift: 1 };
        proof {
            lemma_line_bounds(s, from);
        }
        if is_passed_over(s, from, stop) {
            with_markdown_lines(s, next_line(s, from), lineno + 1, filename, inside, taken)
        } else if line == "```regolith"@ {
            with_markdown_lines(s, next_line(s, from), lineno + 1, filename, true, taken)
        } else if line == "```"@ {
            with_markdown_lines(s, next_line(s, from), lineno + 1, filename, false, taken)
        } else if !inside {
            with_markdown_lines(s, next_line(s, from), lineno + 1, filename, inside, taken)
        } else {
            with_markdown_lines(
                s,
                next_line(s, from),
                lineno + 1,
                filename,
                inside,
                with_line(s, from, stop, frame, taken),
            )
        }
    }
}

/// The literals of a Markdown source.
pub open spec fn markdown_literals(s: Seq<char>, filename: Seq<char>) -> Seq<LiteralView> {
    with_markdown_lines(s, 0, 0, filename, false, Seq::empty())
}

/// Each literal is numbered by its place.
pub open spec fn is_numbered(literals: Seq<LiteralView>) -> bool {
    forall|i: int| 0 <= i < literals.len() ==> (#[trigger] literals[i]).idno == i as usize
}

/// Symbols that follow numbered literals are numbered on from them.
pub proof fn lemma_symbols_numbered(
    s: Seq<char>,
    from: int,
    at: int,
    stop: int,
    frame: LineFrame,
    taken: Seq<LiteralView>,
)
    requires
        at <= stop,
        is_numbered(taken),
    ensures
        is_numbered(with_symbols(s, from, at, stop, frame, taken)),
    decreases stop - at,
{
    let begin = symbol_start(s, at, stop);
    lemma_symbol_bounds(s, at, stop);
    if begin < stop {
        let end = symbol_end(s, begin + 1, stop);
        lemma_symbol_bounds(s, begin + 1, stop);
        lemma_symbols_numbered(
            s,
            from,
            end,
            stop,
            frame,
            taken.push(symbol_literal(s, from, begin, end, frame, taken.len())),
        );
    }
}

/// The literals of plain lines that follow numbered literals are numbered on
/// from them.
pub proof fn lemma_lines_numbered(
    s: Seq<char>,
    from: int,
    lineno: nat,
    filename: Seq<char>,
    taken: Seq<LiteralView>,
)
    requires
        is_numbered(taken),
    ensures
        is_numbered(with_lines(s, from, lineno, filename, taken)),
    decreases s.len() - from,
{
    if 0 <= from < s.len() {
        let stop = line_stop(s, from);
        let frame = LineFrame { filename: filename, lineno: lineno as usize, shift: 0 };
        lemma_line_bounds(s, from);
        lemma_symbols_numbered(s, from, from, stop, frame, taken);
        lemma_lines_numbered(
            s,
            next_line(s, from),
            lineno + 1,
            filename,
            if is_passed_over(s, from, stop) {
                taken
            } else {
                with_line(s, from, stop, frame, taken)
            },
        );
    }
}

/// The literals of Markdown lines that follow numbered literals are numbered
/// on from them.
pub proof fn lemma_markdown_lines_numbered(
    s: Seq<char>,
    from: int,
    lineno: nat,
    filename: Seq<char>,
    inside: bool,
    taken: Seq<LiteralView>,
)
    requires
        is_numbered(taken),
    ensures
        is_numbered(with_markdown_lines(s, from, lineno, filename, inside, taken)),
    decreases s.len() - from,
{
    if 0 <= from < s.len() {
        let stop = line_stop(s, from);
        let line = s.subrange(from, stop);
        let frame = LineFrame { filename: filename, lineno: (lineno + 1) as usize, shift: 1 };
        lemma_line_bounds(s, from);
        lemma_symbols_numbered(s, from, from, stop, frame, taken);
        let next = next_line(s, from);
        if is_passed_over(s, from, stop) {
            lemma_markdown_lines_numbered(s, next, lineno + 1, filename, inside, taken);
        } else if line == "```regolith"@ {
            lemma_markdown_lines_numbered(s, next, lineno + 1, filename, true, taken);
        } else if line == "```"@ {
            lemma_markdown_lines_numbered(s, next, lineno + 1, filename, false, taken);
        } else if !inside {
            lemma_markdown_lines_numbered(s, next, lineno + 1, filename, inside, taken);
        } else {
            lemma_markdown_lines_numbered(
                s,
                next,
                lineno + 1,
                filename,
                inside,
                with_line(s, from, stop, frame, taken),
            );
        }
    }
}

/// The literals of a source, plain or Markdown, are numbered by their places.
pub proof fn lemma_literals_numbered(s: Seq<char>, filename: Seq<char>)
    ensures
        is_numbered(source_literals(s, filename)),
        is_numbered(markdown_literals(s, filename)),
{
    lemma_lines_numbered(s, 0, 0, filename, Seq::empty());
    lemma_markdown_lines_numbered(s, 0, 0, filename, false, Seq::empty());
}

/// The scans for the start and for the end of a symbol stay between `at` and
/// `stop`.
pub proof fn lemma_symbol_bounds(s: Seq<char>, at: int, stop: int)
    requires
        at <= stop,
    ensures
        at <= symbol_start(s, at, stop) <= stop,
        at <= symbol_end(s, at, stop) <= stop,
    decreases stop - at,
{
    if at < stop {
        lemma_symbol_bounds(s, at + 1, stop);
    }
}

/// A line ends inside the source, and the next one starts after its start.
pub proof fn lemma_line_bounds(s: Seq<char>, from: int)
    requires
        0 <= from < s.len(),
    ensures
        from <= line_stop(s, from) <= line_end(s, from) <= s.len(),
        from < next_line(s, from) <= s.len(),
    decreases s.len() - from,
{
    if s[from] != '\n' {
        if from + 1 < s.len() {
            lemma_line_bounds(s, from + 1);
        }
    }
}

/// The bytes of a text are those of its first character and those of the
/// rest.
pub proof fn lemma_utf8_len_first(s: Seq<char>)
    requires
        s.len() > 0,
    ensures
        utf8_len(s) == utf8_width(s[0]) + utf8_len(s.drop_first()),
    decreases s.len(),
{
    if s.len() == 1 {
        assert(s.drop_last() =~= Seq::<char>::empty());
        assert(s.drop_first() =~= Seq::<char>::empty());
    } else {
        lemma_utf8_len_first(s.drop_last());
        assert(s.drop_last().drop_first() =~= s.drop_first().drop_last());
    }
}

/// `utf8_len` is the length of the UTF-8 encoding.
pub proof fn lemma_utf8_len_is_encoded_len(s: Seq<char>)
    ensures
        utf8_len(s) == encode_utf8(s).len(),
    decreases s.len(),
{
    if s.len() > 0 {
        lemma_utf8_len_first(s);
        lemma_utf8_len_is_encoded_len(s.drop_first());
        vstd::utf8::char_is_scalar(s[0]);
        assert(encode_scalar(s[0] as u32).len() == utf8_width(s[0]));
    }
}

/// A part of a text has no more bytes than a longer part from the same
/// start.
pub proof fn lemma_utf8_len_grows(s: Seq<char>, from: int, a: int, b: int)
    requires
        0 <= from <= a <= b <= s.len(),
    ensures
        utf8_len(s.subrange(from, a)) <= utf8_len(s.subrange(from, b)),
    decreases b - a,
{
    if a < b {
        lemma_utf8_len_grows(s, from, a, b - 1);
        assert(s.subrange(from, b).drop_last() =~= s.subrange(from, b - 1));
    }
}

/// The bytes of a text are those before a position and those after it.
pub proof fn lemma_utf8_len_splits(s: Seq<char>, from: int, to: int)
    requires
        0 <= from <= to <= s.len(),
    ensures
        utf8_len(s.subrange(0, to)) == utf8_len(s.subrange(0, from)) + utf8_len(
            s.subrange(from, to),
        ),
    decreases to - from,
{
    if from < to {
        lemma_utf8_len_splits(s, from, to - 1);
        assert(s.subrange(0, to).drop_last() =~= s.subrange(0, to - 1));
        assert(s.subrange(from, to).drop_last() =~= s.subrange(from, to - 1));
    } else {
        assert(s.subrange(from, to) =~= Seq::<char>::empty());
    }
}

/// Appends the literals of the line from `from` up to `stop`.
fn read_line(
    source: &str,
    v: &Vec<char>,
    from: usize,
    stop: usize,
    filename: &str,
    lineno: usize,
    shift: usize,
    result: &mut Vec<Literal>,
)
    requires
        v@ == source@,
        from <= stop <= v.len(),
        utf8_len(v@.subrange(from as int, stop as int)) + shift <= usize::MAX,
    ensures
        literals_view(final(result)@) == with_line(
            v@,
            from as int,
            stop as int,
            LineFrame { filename: filename@, lineno: lineno, shift: shift as nat },
            literals_view(old(result)@),
        ),
{
    let ghost s = v@;
    let ghost frame = LineFrame { filename: filename@, lineno: lineno, shift: shift as nat };
    let ghost taken = literals_view(result@);
    let mut at: usize = from;
    let mut col: usize = 0;
    assert(s.subrange(from as int, from as int) =~= Seq::<char>::empty());
    while at < stop
        invariant
            s == v@,
            v@ == source@,
            from <= at <= stop <= v.len(),
            frame == (LineFrame { filename: filename@, lineno: lineno, shift: shift as nat }),
            utf8_len(s.subrange(from as int, stop as int)) + shift <= usize::MAX,
            col == utf8_len(s.subrange(from as int, at as int)),
            with_symbols(s, from as int, from as int, stop as int, frame, taken) == with_symbols(
                s,
                from as int,
                at as int,
                stop as int,
                frame,
                literals_view(result@),
            ),
        decreases stop - at,
    {
        let ghost at0 = at as int;
        while at < stop && is_space_char(v[at])
            invariant
                s == v@,
                from <= at0 <= at <= stop <= v.len(),
                utf8_len(s.subrange(from as int, stop as int)) + shift <= usize::MAX,
                col == utf8_len(s.subrange(from as int, at as int)),
                symbol_start(s, at0, stop as int) == symbol_start(s, at as int, stop as int),
            decreases stop - at,
        {
            proof {
                lemma_utf8_len_grows(s, from as int, at + 1, stop as int);
                assert(s.subrange(from as int, at + 1).drop_last() =~= s.subrange(
                    from as int,
                    at as int,
                ));
            }
            col = col + char_width(v[at]);
            at = at + 1;
        }
        if at < stop {
            let begin: usize = at;
            let begin_col: usize = col;
            proof {
                lemma_utf8_len_grows(s, from as int, at + 1, stop as int);
                assert(s.subrange(from as int, at + 1).drop_last() =~= s.subrange(
                    from as int,
                    at as int,
                ));
            }
            col = col + char_width(v[at]);
            at = at + 1;
            while at < stop && !is_space_char(v[at])
                invariant
                    s == v@,
                    from <= begin < at <= stop <= v.len(),
                    utf8_len(s.subrange(from as int, stop as int)) + shift <= usize::MAX,
                    col == utf8_len(s.subrange(from as int, at as int)),
                    symbol_end(s, begin + 1, stop as int) == symbol_end(
                        s,
                        at as int,
                        stop as int,
                    ),
                decreases stop - at,
            {
                proof {
                    lemma_utf8_len_grows(s, from as int, at + 1, stop as int);
                    assert(s.subrange(from as int, at + 1).drop_last() =~= s.subrange(
                        from as int,
                        at as int,
                    ));
                }
                col = col + char_width(v[at]);
                at = at + 1;
            }
            proof {
                lemma_utf8_len_grows(s, from as int, begin as int, stop as int);
            }
            let ghost before = result@;
            let literal = Literal {
                literal: source.substring_char(begin, at).to_owned(),
                filename: filename.to_owned(),
                lineno,
                colno: begin_col + shift,
                idno: result.len(),
            };
            result.push(literal);
            proof {
                assert(literals_view(before).len() == before.len());
                assert(literal@ == symbol_literal(
                    s,
                    from as int,
                    begin as int,
                    at as int,
                    frame,
                    before.len() as nat,
                ));
                assert(literals_view(result@) == literals_view(before).push(literal@));
            }
        }
    }
    let ghost before = result@;
    let eol = Literal {
        literal: "<eol>".to_owned(),
        filename: filename.to_owned(),
        lineno,
        colno: col + shift,
        idno: result.len(),
    };
    result.push(eol);
    proof {
        assert(literals_view(before).len() == before.len());
        assert(literals_view(result@) == literals_view(before).push(eol@));
    }
}

/// Scans to the end of the line that starts at `from`.
fn scan_line(v: &Vec<char>, from: usize) -> (end: usize)
    requires
        from <= v.len(),
    ensures
        end == line_end(v@, from as int),
        from <= end <= v.len(),
{
    let mut i: usize = from;
    while i < v.len() && v[i] != '\n'
        invariant
            from <= i <= v.len(),
            line_end(v@, from as int) == line_end(v@, i as int),
        decreases v.len() - i,
    {
        i = i + 1;
    }
    i
}

/// The symbols of a source, line by line, each line closed by an end-of-line
/// marker. Lines and columns count from zero; a column is a number of bytes.
pub fn read_literals_from_multiline_string(source: &str, filename: &str) -> (r: CompileResult<
    Vec<Literal>,
>)
    ensures
        r matches Ok(literals) && literals_view(literals@) == source_literals(
            source@,
            filename@,
        ),
{
    let v = to_chars(source);
    let ghost s = v@;
    let byte_count: usize = source.as_bytes().len();
    proof {
        lemma_utf8_len_is_encoded_len(s);
        assert(s.subrange(0, s.len() as int) =~= s);
        assert(utf8_len(s) == byte_count);
    }
    let mut result: Vec<Literal> = Vec::new();
    let mut from: usize = 0;
    let mut lineno: usize = 0;
    assert(literals_view(result@) == Seq::<LiteralView>::empty());
    while from < v.len()
        invariant
            s == v@,
            v@ == source@,
            from <= v.len(),
            lineno <= from,
            utf8_len(s.subrange(0, s.len() as int)) <= usize::MAX,
            source_literals(s, filename@) == with_lines(
                s,
                from as int,
                lineno as nat,
                filename@,
                literals_view(result@),
            ),
        decreases v.len() - from,
    {
        proof {
            lemma_line_bounds(s, from as int);
        }
        let end = scan_line(&v, from);
        let stop: usize = if end < v.len() && end > from && v[end - 1] == '\r' {
            end - 1
        } else {
            end
        };
        if stop > from && v[from] != '#' {
            proof {
                lemma_utf8_len_splits(s, from as int, stop as int);
                lemma_utf8_len_grows(s, 0, stop as int, s.len() as int);
            }
            read_line(source, &v, from, stop, filename, lineno, 0, &mut result);
        }
        from = if end < v.len() {
            end + 1
        } else {
            end
        };
        lineno = lineno + 1;
    }
    Ok(result)
}

/// The symbols of the lines that stand in the fenced blocks of this notation
/// in a Markdown source. Lines and columns count from one.
pub fn read_literals_from_markdown(source: &str, filename: &str) -> (r: CompileResult<Vec<Literal>>)
    ensures
        r matches Ok(literals) && literals_view(literals@) == markdown_literals(
            source@,
            filename@,
        ),
{
    let v = to_chars(source);
    let ghost s = v@;
    let byte_count: usize = source.as_bytes().len();
    proof {
        lemma_utf8_len_is_encoded_len(s);
        assert(s.subrange(0, s.len() as int) =~= s);
        assert(utf8_len(s) == byte_count);
    }
    let mut result: Vec<Literal> = Vec::new();
    let mut from: usize = 0;
    let mut lineno: usize = 0;
    let mut inside: bool = false;
    assert(literals_view(result@) == Seq::<LiteralView>::empty());
    while from < v.len()
        invariant
            s == v@,
            v@ == source@,
            from <= v.len(),
            lineno <= from,
            inside ==> from >= 1,
            utf8_len(s.subrange(0, s.len() as int)) <= usize::MAX,
            markdown_literals(s, filename@) == with_markdown_lines(
                s,
                from as int,
                lineno as nat,
                filename@,
                inside,
                literals_view(result@),
            ),
        decreases v.len() - from,
    {
        proof {
            lemma_line_bounds(s, from as int);
        }
        let end = scan_line(&v, from);
        let stop: usize = if end < v.len() && end > from && v[end - 1] == '\r' {
            end - 1
        } else {
            end
        };
        if stop > from && v[from] != '#' {
            if spells(&v, from, stop, "```regolith") {
                inside = true;
            } else if spells(&v, from, stop, "```") {
                inside = false;
            } else if inside {
                proof {
                    lemma_utf8_len_splits(s, from as int, stop as int);
                    lemma_utf8_len_grows(s, 0, stop as int, s.len() as int);
                    lemma_utf8_len_grows(s, 0, 1, from as int);
                    assert(s.subrange(0, 1).drop_last() =~= Seq::<char>::empty());
                    assert(utf8_len(s.subrange(0, 1)) >= 1);
                }
                read_line(source, &v, from, stop, filename, lineno + 1, 1, &mut result);
            }
        }
        from = if end < v.len() {
            end + 1
        } else {
            end
        };
        lineno = lineno + 1;
    }
    Ok(result)
}

} // verus!
