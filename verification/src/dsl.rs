//! The description language of constraint systems: one definition on each
//! line, a kind, a name, an equals sign and a value.

use vstd::prelude::*;

verus! {

/// Whether the character is white space: a character with the Unicode
/// property of that name.
pub open spec fn spec_is_space(c: char) -> bool {
    let v = c as u32;
    (0x09 <= v <= 0x0d) || v == 0x20 || v == 0x85 || v == 0xa0 || v == 0x1680 || (0x2000 <= v
        <= 0x200a) || v == 0x2028 || v == 0x2029 || v == 0x202f || v == 0x205f || v == 0x3000
}

/// Whether the character is white space.
pub fn is_space(c: char) -> (r: bool)
    ensures
        r == spec_is_space(c),
{
    let v = c as u32;
    (0x09 <= v && v <= 0x0d) || v == 0x20 || v == 0x85 || v == 0xa0 || v == 0x1680 || (0x2000
        <= v && v <= 0x200a) || v == 0x2028 || v == 0x2029 || v == 0x202f || v == 0x205f || v
        == 0x3000
}

/// The text without the white space at its start.
pub open spec fn spec_trim_start(text: Seq<char>) -> Seq<char>
    decreases text.len(),
{
    if text.len() > 0 && spec_is_space(text[0]) {
        spec_trim_start(text.drop_first())
    } else {
        text
    }
}

/// The text without the white space at its end.
pub open spec fn spec_trim_end(text: Seq<char>) -> Seq<char>
    decreases text.len(),
{
    if text.len() > 0 && spec_is_space(text.last()) {
        spec_trim_end(text.drop_last())
    } else {
        text
    }
}

/// The text without the white space at its start and at its end.
pub open spec fn spec_trim(text: Seq<char>) -> Seq<char> {
    spec_trim_end(spec_trim_start(text))
}

/// The text without the white space at its start and at its end.
pub fn trim(text: &Vec<char>) -> (r: Vec<char>)
    ensures
        r@ == spec_trim(text@),
{
    let n = text.len();
    let mut start: usize = 0;
    proof {
        assert(text@.subrange(0, n as int) =~= text@);
    }
    while start < n && is_space(text[start])
        invariant
            start <= n,
            n == text.len(),
            spec_trim_start(text@) == spec_trim_start(text@.subrange(start as int, n as int)),
        decreases n - start,
    {
        proof {
            let rest = text@.subrange(start as int, n as int);
            assert(rest.drop_first() =~= text@.subrange(start + 1, n as int));
        }
        start = start + 1;
    }
    proof {
        assert(text@.subrange(0, n as int) =~= text@);
    }
    let ghost front = text@.subrange(start as int, n as int);
    assert(spec_trim_start(text@) == front);
    let mut end: usize = n;
    while end > start && is_space(text[end - 1])
        invariant
            start <= end <= n,
            n == text.len(),
            front == text@.subrange(start as int, n as int),
            spec_trim_end(front) == spec_trim_end(text@.subrange(start as int, end as int)),
        decreases end,
    {
        proof {
            let rest = text@.subrange(start as int, end as int);
            assert(rest.drop_last() =~= text@.subrange(start as int, end - 1));
        }
        end = end - 1;
    }
    let mut out: Vec<char> = Vec::with_capacity(end - start);
    let mut i: usize = start;
    while i < end
        invariant
            start <= i <= end <= n,
            n == text.len(),
            out@ == text@.subrange(start as int, i as int),
        decreases end - i,
    {
        out.push(text[i]);
        proof {
            assert(out@ =~= text@.subrange(start as int, i + 1));
        }
        i = i + 1;
    }
    out
}

/// The pieces of the text between the separators: one more piece than
/// there are separators.
pub open spec fn spec_split(text: Seq<char>, separator: char) -> Seq<Seq<char>>
    decreases text.len(),
{
    if text.len() == 0 {
        seq![Seq::empty()]
    } else {
        let head = spec_split(text.drop_last(), separator);
        if text.last() == separator {
            head.push(Seq::empty())
        } else {
            head.drop_last().push(head.last().push(text.last()))
        }
    }
}

/// There is a piece at least.
pub proof fn lemma_split_some(text: Seq<char>, separator: char)
    ensures
        spec_split(text, separator).len() >= 1,
    decreases text.len(),
{
    if text.len() > 0 {
        lemma_split_some(text.drop_last(), separator);
    }
}

/// The pieces as sequences.
pub open spec fn spec_pieces(pieces: Seq<Vec<char>>) -> Seq<Seq<char>> {
    Seq::new(pieces.len(), |i: int| pieces[i]@)
}

/// The pieces of the text between the separators.
pub fn split(text: &Vec<char>, separator: char) -> (r: Vec<Vec<char>>)
    ensures
        spec_pieces(r@) == spec_split(text@, separator),
        r.len() >= 1,
{
    let mut done: Vec<Vec<char>> = Vec::new();
    let mut piece: Vec<char> = Vec::new();
    let mut i: usize = 0;
    proof {
        assert(text@.subrange(0, 0) =~= Seq::<char>::empty());
        assert(spec_pieces(done@).push(piece@) =~= spec_split(text@.subrange(0, 0), separator));
    }
    while i < text.len()
        invariant
            i <= text.len(),
            spec_pieces(done@).push(piece@) == spec_split(text@.subrange(0, i as int), separator),
        decreases text.len() - i,
    {
        let ghost before = spec_pieces(done@);
        let ghost current = piece@;
        proof {
            let now = text@.subrange(0, i + 1);
            assert(now.drop_last() =~= text@.subrange(0, i as int));
            assert(now.last() == text[i as int]);
            assert(before.push(current).drop_last() =~= before);
        }
        if text[i] == separator {
            done.push(piece);
            piece = Vec::new();
            proof {
                assert(spec_pieces(done@) =~= before.push(current));
            }
        } else {
            piece.push(text[i]);
        }
        i = i + 1;
    }
    proof {
        assert(text@.subrange(0, text.len() as int) =~= text@);
    }
    let ghost before = spec_pieces(done@);
    let ghost last = piece@;
    done.push(piece);
    proof {
        assert(spec_pieces(done@) =~= before.push(last));
    }
    done
}

/// Whether the text starts with the prefix.
pub open spec fn spec_starts_with(text: Seq<char>, prefix: Seq<char>) -> bool {
    prefix.len() <= text.len() && text.subrange(0, prefix.len() as int) == prefix
}

/// Whether the text starts with the prefix.
pub fn starts_with(text: &Vec<char>, prefix: &Vec<char>) -> (r: bool)
    ensures
        r == spec_starts_with(text@, prefix@),
{
    if prefix.len() > text.len() {
        return false;
    }
    let mut i: usize = 0;
    while i < prefix.len()
        invariant
            i <= prefix.len() <= text.len(),
            forall|k: int| 0 <= k < i ==> text[k] == prefix[k],
        decreases prefix.len() - i,
    {
        if text[i] != prefix[i] {
            proof {
                assert(text@.subrange(0, prefix.len() as int)[i as int] != prefix@[i as int]);
            }
            return false;
        }
        i = i + 1;
    }
    proof {
        assert(text@.subrange(0, prefix.len() as int) =~= prefix@);
    }
    true
}

/// What a line defines.
#[derive(Debug, Clone, Copy, PartialEq, Eq, Structural)]
pub enum LineKind {
    Note,
    Chord,
    Interval,
    Constraint,
}

/// The word that opens a line of the kind, with the blank that follows it.
pub open spec fn spec_keyword(kind: LineKind) -> Seq<char> {
    match kind {
        LineKind::Note => seq!['n', 'o', 't', 'e', ' '],
        LineKind::Chord => seq!['c', 'h', 'o', 'r', 'd', ' '],
        LineKind::Interval => seq!['i', 'n', 't', 'e', 'r', 'v', 'a', 'l', ' '],
        LineKind::Constraint => seq!['c', 'o', 'n', 's', 't', 'r', 'a', 'i', 'n', 't', ' '],
    }
}

/// The word that opens a line of the kind, with the blank that follows it.
pub fn keyword(kind: LineKind) -> (r: Vec<char>)
    ensures
        r@ == spec_keyword(kind),
{
    let r = match kind {
        LineKind::Note => vec!['n', 'o', 't', 'e', ' '],
        LineKind::Chord => vec!['c', 'h', 'o', 'r', 'd', ' '],
        LineKind::Interval => vec!['i', 'n', 't', 'e', 'r', 'v', 'a', 'l', ' '],
        LineKind::Constraint => vec!['c', 'o', 'n', 's', 't', 'r', 'a', 'i', 'n', 't', ' '],
    };
    proof {
        assert(r@ =~= spec_keyword(kind));
    }
    r
}

/// The kind of the line, by the word that opens it; none for a line that
/// opens otherwise.
pub open spec fn spec_kind(line: Seq<char>) -> Option<LineKind> {
    if spec_starts_with(line, spec_keyword(LineKind::Note)) {
        Some(LineKind::Note)
    } else if spec_starts_with(line, spec_keyword(LineKind::Chord)) {
        Some(LineKind::Chord)
    } else if spec_starts_with(line, spec_keyword(LineKind::Interval)) {
        Some(LineKind::Interval)
    } else if spec_starts_with(line, spec_keyword(LineKind::Constraint)) {
        Some(LineKind::Constraint)
    } else {
        None
    }
}

/// The kind of the line.
pub fn kind_of(line: &Vec<char>) -> (r: Option<LineKind>)
    ensures
        r == spec_kind(line@),
{
    if starts_with(line, &keyword(LineKind::Note)) {
        Some(LineKind::Note)
    } else if starts_with(line, &keyword(LineKind::Chord)) {
        Some(LineKind::Chord)
    } else if starts_with(line, &keyword(LineKind::Interval)) {
        Some(LineKind::Interval)
    } else if starts_with(line, &keyword(LineKind::Constraint)) {
        Some(LineKind::Constraint)
    } else {
        None
    }
}

/// The name that a line of the kind defines: what stands between the
/// opening word and the equals sign, without the white space around it;
/// nothing where the opening word is followed by the equals sign at once.
pub open spec fn spec_name(before_equals: Seq<char>, kind: LineKind) -> Seq<char> {
    let text = spec_trim(before_equals);
    let word = spec_keyword(kind);
    if spec_starts_with(text, word) {
        spec_trim(text.subrange(word.len() as int, text.len() as int))
    } else {
        Seq::empty()
    }
}

/// The name that a line of the kind defines.
pub fn name_of(before_equals: &Vec<char>, kind: LineKind) -> (r: Vec<char>)
    ensures
        r@ == spec_name(before_equals@, kind),
{
    let text = trim(before_equals);
    let word = keyword(kind);
    if starts_with(&text, &word) {
        let mut rest: Vec<char> = Vec::with_capacity(text.len() - word.len());
        let mut i: usize = word.len();
        while i < text.len()
            invariant
                word.len() <= i <= text.len(),
                rest@ == text@.subrange(word.len() as int, i as int),
            decreases text.len() - i,
        {
            rest.push(text[i]);
            proof {
                assert(rest@ =~= text@.subrange(word.len() as int, i + 1));
            }
            i = i + 1;
        }
        trim(&rest)
    } else {
        Vec::new()
    }
}

/// A definition: its kind, its name and the text of its value.
#[derive(Debug)]
pub struct ParsedLine {
    pub kind: LineKind,
    pub name: Vec<char>,
    pub value: Vec<char>,
}

/// A definition as plain values.
pub ghost struct LineModel {
    pub kind: LineKind,
    pub name: Seq<char>,
    pub value: Seq<char>,
}

impl ParsedLine {
    pub open spec fn model(self) -> LineModel {
        LineModel { kind: self.kind, name: self.name@, value: self.value@ }
    }
}

/// What a line gives: nothing for a line that opens with none of the four
/// words; else the line must hold one equals sign, and gives the kind, the
/// name before the sign and the value after it, both without the white
/// space around them.
pub open spec fn spec_parse_line(line: Seq<char>) -> Option<Option<LineModel>> {
    match spec_kind(line) {
        None => Some(None),
        Some(kind) => {
            let parts = spec_split(line, '=');
            if parts.len() != 2 {
                None
            } else {
                Some(
                    Some(
                        LineModel {
                            kind,
                            name: spec_name(parts[0], kind),
                            value: spec_trim(parts[1]),
                        },
                    ),
                )
            }
        },
    }
}

/// A line that opens with one of the four words and does not hold one
/// equals sign: the line is kept for the message.
#[derive(Debug)]
pub struct InvalidSyntax(pub Vec<char>);

/// Reads one line, which holds no white space at its ends.
pub fn parse_line(line: &Vec<char>) -> (r: Result<Option<ParsedLine>, InvalidSyntax>)
    ensures
        match spec_parse_line(line@) {
            None => r.is_err() && r.unwrap_err().0@ == line@,
            Some(None) => r.is_ok() && r.unwrap().is_none(),
            Some(Some(model)) => r.is_ok() && r.unwrap().is_some() && r.unwrap().unwrap().model()
                == model,
        },
{
    let kind = match kind_of(line) {
        None => {
            return Ok(None);
        },
        Some(kind) => kind,
    };
    let parts = split(line, '=');
    if parts.len() != 2 {
        let mut copy: Vec<char> = Vec::with_capacity(line.len());
        let mut i: usize = 0;
        while i < line.len()
            invariant
                i <= line.len(),
                copy@ == line@.subrange(0, i as int),
            decreases line.len() - i,
        {
            copy.push(line[i]);
            proof {
                assert(copy@ =~= line@.subrange(0, i + 1));
            }
            i = i + 1;
        }
        proof {
            assert(line@.subrange(0, line.len() as int) =~= line@);
        }
        return Err(InvalidSyntax(copy));
    }
    proof {
        assert(spec_pieces(parts@)[0] == parts[0]@);
        assert(spec_pieces(parts@)[1] == parts[1]@);
    }
    let name = name_of(&parts[0], kind);
    let value = trim(&parts[1]);
    Ok(Some(ParsedLine { kind, name, value }))
}

/// Whether the line, without the white space at its ends, is empty or a
/// comment.
pub open spec fn spec_skipped(line: Seq<char>) -> bool {
    line.len() == 0 || spec_starts_with(line, seq!['/', '/'])
}

/// What a line of the text gives: the line counts without the white space
/// at its ends; an empty line and a comment give nothing.
pub open spec fn spec_read_line(raw: Seq<char>) -> Option<Option<LineModel>> {
    let line = spec_trim(raw);
    if spec_skipped(line) {
        Some(None)
    } else {
        spec_parse_line(line)
    }
}

/// Reads one line of the text.
pub fn read_line(raw: &Vec<char>) -> (r: Result<Option<ParsedLine>, InvalidSyntax>)
    ensures
        match spec_read_line(raw@) {
            None => r.is_err() && r.unwrap_err().0@ == spec_trim(raw@),
            Some(None) => r.is_ok() && r.unwrap().is_none(),
            Some(Some(model)) => r.is_ok() && r.unwrap().is_some() && r.unwrap().unwrap().model()
                == model,
        },
{
    let line = trim(raw);
    let comment = vec!['/', '/'];
    proof {
        assert(comment@ =~= seq!['/', '/']);
    }
    if line.len() == 0 || starts_with(&line, &comment) {
        return Ok(None);
    }
    parse_line(&line)
}

/// The definitions of the first `n` lines, in their order, or the first
/// line among them that is refused, without the white space at its ends.
pub open spec fn spec_parse_lines(lines: Seq<Seq<char>>, n: nat) -> Result<
    Seq<LineModel>,
    Seq<char>,
>
    decreases n,
{
    if n == 0 {
        Ok(Seq::empty())
    } else {
        match spec_parse_lines(lines, (n - 1) as nat) {
            Err(line) => Err(line),
            Ok(found) => match spec_read_line(lines[n - 1]) {
                None => Err(spec_trim(lines[n - 1])),
                Some(None) => Ok(found),
                Some(Some(model)) => Ok(found.push(model)),
            },
        }
    }
}

/// The definitions as plain values.
pub open spec fn spec_lines_view(lines: Seq<ParsedLine>) -> Seq<LineModel> {
    Seq::new(lines.len(), |i: int| lines[i].model())
}

/// Reads a text, one definition on each line.
pub fn parse_text(input: &Vec<char>) -> (r: Result<Vec<ParsedLine>, InvalidSyntax>)
    ensures
        match spec_parse_lines(
            spec_split(input@, '\n'),
            spec_split(input@, '\n').len(),
        ) {
            Ok(found) => r.is_ok() && spec_lines_view(r.unwrap()@) == found,
            Err(line) => r.is_err() && r.unwrap_err().0@ == line,
        },
{
    let lines = split(input, '\n');
    let ghost all = spec_split(input@, '\n');
    let mut found: Vec<ParsedLine> = Vec::new();
    let mut i: usize = 0;
    proof {
        assert(spec_lines_view(found@) =~= Seq::empty());
    }
    while i < lines.len()
        invariant
            i <= lines.len(),
            all == spec_pieces(lines@),
            all == spec_split(input@, '\n'),
            spec_parse_lines(all, i as nat) == Ok::<Seq<LineModel>, Seq<char>>(
                spec_lines_view(found@),
            ),
        decreases lines.len() - i,
    {
        assert(all[i as int] == lines[i as int]@);
        match read_line(&lines[i]) {
            Err(e) => {
                proof {
                    assert(spec_parse_lines(all, (i + 1) as nat) == Err::<
                        Seq<LineModel>,
                        Seq<char>,
                    >(spec_trim(all[i as int])));
                    assert(all.len() == lines.len());
                    lemma_refused_stays(all, (i + 1) as nat, lines.len() as nat);
                }
                return Err(e);
            },
            Ok(None) => {},
            Ok(Some(parsed)) => {
                let ghost before = spec_lines_view(found@);
                let ghost model = parsed.model();
                found.push(parsed);
                proof {
                    assert(spec_lines_view(found@) =~= before.push(model));
                }
            },
        }
        i = i + 1;
    }
    Ok(found)
}

/// Once a line was refused, the outcome stays.
pub proof fn lemma_refused_stays(lines: Seq<Seq<char>>, m: nat, n: nat)
    requires
        m <= n,
        spec_parse_lines(lines, m).is_err(),
    ensures
        spec_parse_lines(lines, n) == spec_parse_lines(lines, m),
    decreases n,
{
    if m < n {
        lemma_refused_stays(lines, m, (n - 1) as nat);
    }
}

/// The notes of a chord: the pieces of the value between the plus signs,
/// each without the white space around it.
pub open spec fn spec_chord_notes(value: Seq<char>) -> Seq<Seq<char>> {
    let pieces = spec_split(value, '+');
    Seq::new(pieces.len(), |i: int| spec_trim(pieces[i]))
}

/// The notes of a chord.
pub fn chord_notes(value: &Vec<char>) -> (r: Vec<Vec<char>>)
    ensures
        spec_pieces(r@) == spec_chord_notes(value@),
{
    let pieces = split(value, '+');
    let mut out: Vec<Vec<char>> = Vec::with_capacity(pieces.len());
    let mut i: usize = 0;
    while i < pieces.len()
        invariant
            i <= pieces.len(),
            out.len() == i,
            spec_pieces(pieces@) == spec_split(value@, '+'),
            forall|k: int| 0 <= k < i ==> (#[trigger] out[k])@ == spec_trim(pieces[k]@),
        decreases pieces.len() - i,
    {
        out.push(trim(&pieces[i]));
        i = i + 1;
    }
    proof {
        assert forall|k: int| 0 <= k < pieces.len() implies spec_pieces(out@)[k]
            == spec_chord_notes(value@)[k] by {
            assert(spec_pieces(pieces@)[k] == pieces[k]@);
        }
        assert(spec_pieces(out@) =~= spec_chord_notes(value@));
    }
    out
}

} // verus!
