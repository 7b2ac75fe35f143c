//! Tolerant markup reading: characters to tokens, tokens to table rows.

use vstd::prelude::*;
use crate::text::{norm, normalize, decode, decode_text};

verus! {

/// The elements that the row builder reacts to; every other element is
/// transparent.
#[derive(Clone, Copy, Debug, PartialEq, Eq, Structural)]
pub enum TagKind {
    Table,
    Row,
    Cell,
    Break,
    Other,
}

/// A markup token: an opening or closing tag, or a run of text.
pub enum Tok {
    Open(TagKind),
    Close(TagKind),
    Text(Seq<char>),
}

#[derive(Debug)]
pub enum Token {
    Open(TagKind),
    Close(TagKind),
    Text(Vec<char>),
}

impl View for Token {
    type V = Tok;

    open spec fn view(&self) -> Tok {
        match self {
            Token::Open(k) => Tok::Open(*k),
            Token::Close(k) => Tok::Close(*k),
            Token::Text(t) => Tok::Text(t@),
        }
    }
}

pub open spec fn toks_view(v: Seq<Token>) -> Seq<Tok> {
    v.map_values(|t: Token| t@)
}

/// ASCII letter `c` equals the lower-case letter `l`, case ignored.
pub open spec fn ci(c: char, l: char) -> bool {
    c == l || (c as u32) + 32 == (l as u32)
}

pub open spec fn is_name_char(c: char) -> bool {
    ('a' <= c && c <= 'z') || ('A' <= c && c <= 'Z') || ('0' <= c && c <= '9')
}

/// End of the element name that starts at `i`.
pub open spec fn name_end(b: Seq<char>, i: int) -> int
    decreases b.len() - i,
{
    if 0 <= i < b.len() && is_name_char(b[i]) {
        name_end(b, i + 1)
    } else {
        i
    }
}

pub open spec fn kind_of(n: Seq<char>) -> TagKind {
    if n.len() == 5 && ci(n[0], 't') && ci(n[1], 'a') && ci(n[2], 'b') && ci(n[3], 'l') && ci(
        n[4],
        'e',
    ) {
        TagKind::Table
    } else if n.len() == 2 && ci(n[0], 't') && ci(n[1], 'r') {
        TagKind::Row
    } else if n.len() == 2 && ci(n[0], 't') && (ci(n[1], 'd') || ci(n[1], 'h')) {
        TagKind::Cell
    } else if n.len() == 2 && ci(n[0], 'b') && ci(n[1], 'r') {
        TagKind::Break
    } else {
        TagKind::Other
    }
}

/// The token for the text between `<` and `>`; a leading `/` closes.
pub open spec fn tag_tok(b: Seq<char>) -> Tok {
    if b.len() > 0 && b[0] == '/' {
        Tok::Close(kind_of(b.subrange(1, name_end(b, 1))))
    } else {
        Tok::Open(kind_of(b.subrange(0, name_end(b, 0))))
    }
}

/// Lexer state after a prefix: tokens so far, inside a tag or not, and the
/// characters of the pending tag or text.
pub open spec fn lex_fold(s: Seq<char>) -> (Seq<Tok>, bool, Seq<char>)
    decreases s.len(),
{
    if s.len() == 0 {
        (Seq::empty(), false, Seq::empty())
    } else {
        let p = lex_fold(s.drop_last());
        let c = s.last();
        if p.1 {
            if c == '>' {
                (p.0.push(tag_tok(p.2)), false, Seq::empty())
            } else {
                (p.0, true, p.2.push(c))
            }
        } else if c == '<' {
            (
                if p.2.len() > 0 {
                    p.0.push(Tok::Text(p.2))
                } else {
                    p.0
                },
                true,
                Seq::empty(),
            )
        } else {
            (p.0, false, p.2.push(c))
        }
    }
}

/// The tokens of a document. A tag left open at the end is dropped; text
/// left at the end is kept.
pub open spec fn lex(s: Seq<char>) -> Seq<Tok> {
    let p = lex_fold(s);
    if !p.1 && p.2.len() > 0 {
        p.0.push(Tok::Text(p.2))
    } else {
        p.0
    }
}

fn ci_at(c: char, l: char) -> (r: bool)
    ensures
        r == ci(c, l),
{
    c == l || (c as u32) + 32 == (l as u32)
}

fn kind_at(b: &[char], a: usize, e: usize) -> (r: TagKind)
    requires
        a <= e <= b@.len(),
    ensures
        r == kind_of(b@.subrange(a as int, e as int)),
{
    let n = e - a;
    if n == 5 && ci_at(b[a], 't') && ci_at(b[a + 1], 'a') && ci_at(b[a + 2], 'b') && ci_at(
        b[a + 3],
        'l',
    ) && ci_at(b[a + 4], 'e') {
        TagKind::Table
    } else if n == 2 && ci_at(b[a], 't') && ci_at(b[a + 1], 'r') {
        TagKind::Row
    } else if n == 2 && ci_at(b[a], 't') && (ci_at(b[a + 1], 'd') || ci_at(b[a + 1], 'h')) {
        TagKind::Cell
    } else if n == 2 && ci_at(b[a], 'b') && ci_at(b[a + 1], 'r') {
        TagKind::Break
    } else {
        TagKind::Other
    }
}

fn name_end_at(b: &[char], i: usize) -> (r: usize)
    requires
        i <= b@.len(),
    ensures
        r as int == name_end(b@, i as int),
        i <= r <= b@.len(),
{
    let mut j = i;
    while j < b.len() && (('a' <= b[j] && b[j] <= 'z') || ('A' <= b[j] && b[j] <= 'Z') || ('0'
        <= b[j] && b[j] <= '9'))
        invariant
            i <= j <= b@.len(),
            name_end(b@, i as int) == name_end(b@, j as int),
        decreases b@.len() - j,
    {
        j = j + 1;
    }
    j
}

fn make_tag(b: &[char]) -> (r: Token)
    ensures
        r@ == tag_tok(b@),
{
    if b.len() > 0 && b[0] == '/' {
        let e = name_end_at(b, 1);
        Token::Close(kind_at(b, 1, e))
    } else {
        let e = name_end_at(b, 0);
        Token::Open(kind_at(b, 0, e))
    }
}

/// Splits a document into tags and text runs. Markup need not be well
/// formed: nothing here requires tags to be balanced.
pub fn tokenize(s: &[char]) -> (r: Vec<Token>)
    ensures
        toks_view(r@) == lex(s@),
{
    let mut out: Vec<Token> = Vec::new();
    let mut in_tag = false;
    let mut buf: Vec<char> = Vec::new();
    let mut i: usize = 0;
    while i < s.len()
        invariant
            i <= s@.len(),
            (toks_view(out@), in_tag, buf@) == lex_fold(s@.take(i as int)),
        decreases s@.len() - i,
    {
        assert(s@.take(i as int + 1).drop_last() == s@.take(i as int));
        let c = s[i];
        let ghost before = out@;
        if in_tag {
            if c == '>' {
                let t = make_tag(buf.as_slice());
                out.push(t);
                in_tag = false;
                buf = Vec::new();
                assert(toks_view(out@) =~= toks_view(before).push(t@));
            } else {
                buf.push(c);
            }
        } else if c == '<' {
            if buf.len() > 0 {
                let t = Token::Text(buf);
                out.push(t);
                assert(toks_view(out@) =~= toks_view(before).push(t@));
            }
            in_tag = true;
            buf = Vec::new();
        } else {
            buf.push(c);
        }
        i = i + 1;
    }
    assert(s@.take(s@.len() as int) == s@);
    if !in_tag && buf.len() > 0 {
        let ghost before = out@;
        let t = Token::Text(buf);
        out.push(t);
        assert(toks_view(out@) =~= toks_view(before).push(t@));
    }
    out
}

/// A table row: the ordinal of the table it belongs to (tables counted in
/// document order from one; zero before the first) and its cell texts in
/// normal form.
pub struct RowM {
    pub table: nat,
    pub cells: Seq<Seq<char>>,
}

#[derive(Debug)]
pub struct Row {
    pub table: usize,
    pub cells: Vec<Vec<char>>,
}

pub open spec fn cells_view(c: Seq<Vec<char>>) -> Seq<Seq<char>> {
    c.map_values(|v: Vec<char>| v@)
}

impl View for Row {
    type V = RowM;

    open spec fn view(&self) -> RowM {
        RowM { table: self.table as nat, cells: cells_view(self.cells@) }
    }
}

pub open spec fn rows_view(v: Seq<Row>) -> Seq<RowM> {
    v.map_values(|r: Row| r@)
}

/// Row builder state: finished rows, tables opened so far, the row being
/// filled and the raw text of the cell being filled.
pub struct RowState {
    pub rows: Seq<RowM>,
    pub tables: nat,
    pub row: Option<Seq<Seq<char>>>,
    pub cell: Option<Seq<char>>,
}

pub open spec fn row_or_empty(r: Option<Seq<Seq<char>>>) -> Seq<Seq<char>> {
    match r {
        Some(c) => c,
        None => Seq::empty(),
    }
}

pub open spec fn flush_cell(st: RowState) -> RowState {
    match st.cell {
        Some(c) => RowState { row: Some(row_or_empty(st.row).push(norm(c))), cell: None, ..st },
        None => st,
    }
}

pub open spec fn flush_row(st: RowState) -> RowState {
    let s1 = flush_cell(st);
    match s1.row {
        Some(r) => RowState {
            rows: s1.rows.push(RowM { table: s1.tables, cells: r }),
            row: None,
            ..s1
        },
        None => s1,
    }
}

/// How one token moves the row builder. A cell outside a row opens a row; a
/// new row, cell or table closes what is still open, as browsers do. Text
/// joins the open cell with its character references replaced.
pub open spec fn row_step(st: RowState, t: Tok) -> RowState {
    match t {
        Tok::Open(TagKind::Table) => {
            let s1 = flush_row(st);
            RowState { tables: s1.tables + 1, ..s1 }
        },
        Tok::Close(TagKind::Table) => flush_row(st),
        Tok::Close(TagKind::Row) => flush_row(st),
        Tok::Open(TagKind::Row) => {
            let s1 = flush_row(st);
            RowState { row: Some(Seq::empty()), ..s1 }
        },
        Tok::Open(TagKind::Cell) => {
            let s1 = flush_cell(st);
            RowState { row: Some(row_or_empty(s1.row)), cell: Some(Seq::empty()), ..s1 }
        },
        Tok::Close(TagKind::Cell) => flush_cell(st),
        Tok::Open(TagKind::Break) => match st.cell {
            Some(c) => RowState { cell: Some(c.push(' ')), ..st },
            None => st,
        },
        Tok::Text(x) => match st.cell {
            Some(c) => RowState { cell: Some(c + decode(x)), ..st },
            None => st,
        },
        _ => st,
    }
}

pub open spec fn rows_fold(ts: Seq<Tok>) -> RowState
    decreases ts.len(),
{
    if ts.len() == 0 {
        RowState { rows: Seq::empty(), tables: 0, row: None, cell: None }
    } else {
        row_step(rows_fold(ts.drop_last()), ts.last())
    }
}

/// The table rows of a token sequence, in document order.
pub open spec fn rows_of(ts: Seq<Tok>) -> Seq<RowM> {
    flush_row(rows_fold(ts)).rows
}

/// The table rows of a document, in document order.
pub open spec fn doc_rows(s: Seq<char>) -> Seq<RowM> {
    rows_of(lex(s))
}

struct RowBuilder {
    rows: Vec<Row>,
    tables: usize,
    row: Option<Vec<Vec<char>>>,
    cell: Option<Vec<char>>,
}

impl View for RowBuilder {
    type V = RowState;

    closed spec fn view(&self) -> RowState {
        RowState {
            rows: rows_view(self.rows@),
            tables: self.tables as nat,
            row: match self.row {
                Some(r) => Some(cells_view(r@)),
                None => None,
            },
            cell: match self.cell {
                Some(c) => Some(c@),
                None => None,
            },
        }
    }
}

fn append_chars(dst: &mut Vec<char>, src: &[char])
    ensures
        final(dst)@ == old(dst)@ + src@,
{
    let mut i: usize = 0;
    while i < src.len()
        invariant
            i <= src@.len(),
            dst@ == old(dst)@ + src@.take(i as int),
        decreases src@.len() - i,
    {
        dst.push(src[i]);
        i = i + 1;
        assert(dst@ =~= old(dst)@ + src@.take(i as int));
    }
    assert(src@.take(src@.len() as int) == src@);
}

impl RowBuilder {
    fn flush_cell(&mut self)
        ensures
            final(self)@ == flush_cell(old(self)@),
            final(self).tables == old(self).tables,
    {
        let cell = self.cell.take();
        match cell {
            Some(c) => {
                let n = normalize(c.as_slice());
                let mut r = match self.row.take() {
                    Some(r) => r,
                    None => Vec::new(),
                };
                let ghost before = r@;
                assert(cells_view(before) =~= row_or_empty(old(self)@.row));
                r.push(n);
                assert(cells_view(r@) =~= cells_view(before).push(n@));
                self.row = Some(r);
            },
            None => {},
        }
    }

    fn flush_row(&mut self)
        ensures
            final(self)@ == flush_row(old(self)@),
            final(self).tables == old(self).tables,
    {
        self.flush_cell();
        match self.row.take() {
            Some(r) => {
                let ghost before = self.rows@;
                let row = Row { table: self.tables, cells: r };
                self.rows.push(row);
                assert(rows_view(self.rows@) =~= rows_view(before).push(row@));
            },
            None => {},
        }
    }

    fn step(&mut self, t: &Token)
        requires
            old(self).tables < usize::MAX,
        ensures
            final(self)@ == row_step(old(self)@, t@),
            final(self).tables <= old(self).tables + 1,
    {
        match t {
            Token::Open(TagKind::Table) => {
                self.flush_row();
                self.tables = self.tables + 1;
            },
            Token::Close(TagKind::Table) => self.flush_row(),
            Token::Close(TagKind::Row) => self.flush_row(),
            Token::Open(TagKind::Row) => {
                self.flush_row();
                let e: Vec<Vec<char>> = Vec::new();
                assert(cells_view(e@) =~= Seq::empty());
                self.row = Some(e);
            },
            Token::Open(TagKind::Cell) => {
                self.flush_cell();
                if self.row.is_none() {
                    let e: Vec<Vec<char>> = Vec::new();
                    assert(cells_view(e@) =~= Seq::empty());
                    self.row = Some(e);
                }
                self.cell = Some(Vec::new());
            },
            Token::Close(TagKind::Cell) => self.flush_cell(),
            Token::Open(TagKind::Break) => {
                match self.cell.take() {
                    Some(mut c) => {
                        c.push(' ');
                        self.cell = Some(c);
                    },
                    None => {},
                }
            },
            Token::Text(x) => {
                match self.cell.take() {
                    Some(mut c) => {
                        let d = decode_text(x.as_slice());
                        append_chars(&mut c, d.as_slice());
                        self.cell = Some(c);
                    },
                    None => {},
                }
            },
            _ => {},
        }
    }
}

/// Groups the cells of a token sequence into table rows.
pub fn build_rows(ts: &[Token]) -> (r: Vec<Row>)
    ensures
        rows_view(r@) == rows_of(toks_view(ts@)),
{
    let mut b = RowBuilder { rows: Vec::new(), tables: 0, row: None, cell: None };
    assert(rows_view(b.rows@) =~= Seq::empty());
    let mut i: usize = 0;
    while i < ts.len()
        invariant
            i <= ts@.len(),
            b.tables <= i,
            b@ == rows_fold(toks_view(ts@).take(i as int)),
        decreases ts@.len() - i,
    {
        assert(toks_view(ts@).take(i as int + 1).drop_last() == toks_view(ts@).take(i as int));
        assert(toks_view(ts@).take(i as int + 1).last() == ts@[i as int]@);
        b.step(&ts[i]);
        i = i + 1;
    }
    assert(toks_view(ts@).take(ts@.len() as int) == toks_view(ts@));
    b.flush_row();
    b.rows
}

/// The table rows of a document, each cell's text in normal form.
pub fn document_rows(s: &[char]) -> (r: Vec<Row>)
    ensures
        rows_view(r@) == doc_rows(s@),
{
    let ts = tokenize(s);
    build_rows(ts.as_slice())
}

} // verus!
