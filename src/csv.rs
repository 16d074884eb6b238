//! The canonical row and its CSV form: a header line, then one line per row,
//! fields separated by commas and quoted only where they must be.
use vstd::prelude::*;

verus! {

/// One output row. The three numeric columns hold number text, or nothing.
#[derive(Debug)]
pub struct Row {
    pub country: Vec<char>,
    pub region: Vec<char>,
    pub population: Option<Vec<char>>,
    pub area: Option<Vec<char>>,
    pub density: Option<Vec<char>>,
}

/// The contents of a row.
pub struct RowView {
    pub country: Seq<char>,
    pub region: Seq<char>,
    pub population: Option<Seq<char>>,
    pub area: Option<Seq<char>>,
    pub density: Option<Seq<char>>,
}

pub open spec fn opt_view(x: Option<Vec<char>>) -> Option<Seq<char>> {
    match x {
        Some(v) => Some(v@),
        None => None,
    }
}

impl View for Row {
    type V = RowView;

    open spec fn view(&self) -> RowView {
        RowView {
            country: self.country@,
            region: self.region@,
            population: opt_view(self.population),
            area: opt_view(self.area),
            density: opt_view(self.density),
        }
    }
}

pub open spec fn is_special(c: char) -> bool {
    c == ',' || c == '"' || c == '\n' || c == '\r'
}

/// A field must be quoted when it holds a comma, a quote or a line break.
pub open spec fn needs_quotes(s: Seq<char>) -> bool {
    exists|i: int| 0 <= i < s.len() && is_special(#[trigger] s[i])
}

/// The characters of `s` with each quote doubled.
pub open spec fn doubled(s: Seq<char>) -> Seq<char>
    decreases s.len(),
{
    if s.len() == 0 {
        seq![]
    } else {
        doubled(s.drop_last()) + if s.last() == '"' {
            seq!['"', '"']
        } else {
            seq![s.last()]
        }
    }
}

/// How a text field is written.
pub open spec fn field_text(s: Seq<char>) -> Seq<char> {
    if needs_quotes(s) {
        seq!['"'] + doubled(s) + seq!['"']
    } else {
        s
    }
}

/// How a field that may be missing is written: a missing one is empty.
pub open spec fn cell_text(x: Option<Seq<char>>) -> Seq<char> {
    match x {
        Some(s) => field_text(s),
        None => seq![],
    }
}

pub open spec fn line_text(r: RowView) -> Seq<char> {
    field_text(r.country) + seq![','] + field_text(r.region) + seq![','] + cell_text(r.population)
        + seq![','] + cell_text(r.area) + seq![','] + cell_text(r.density) + seq!['\n']
}

pub open spec fn header_text() -> Seq<char> {
    seq![
        'c', 'o', 'u', 'n', 't', 'r', 'y', ',', 'r', 'e', 'g', 'i', 'o', 'n', ',',
        'p', 'o', 'p', 'u', 'l', 'a', 't', 'i', 'o', 'n', ',', 'a', 'r', 'e', 'a', ',',
        'd', 'e', 'n', 's', 'i', 't', 'y', '\n',
    ]
}

/// The lines of the given rows, in order.
pub open spec fn lines_text(rows: Seq<RowView>) -> Seq<char>
    decreases rows.len(),
{
    if rows.len() == 0 {
        seq![]
    } else {
        lines_text(rows.drop_last()) + line_text(rows.last())
    }
}

/// The whole table: the header line, then one line per row.
pub open spec fn table_text(rows: Seq<RowView>) -> Seq<char> {
    header_text() + lines_text(rows)
}

/// Whether a field must be quoted.
pub fn field_needs_quotes(s: &Vec<char>) -> (r: bool)
    ensures
        r == needs_quotes(s@),
{
    let mut i: usize = 0;
    while i < s.len()
        invariant
            0 <= i <= s@.len(),
            forall|j: int| 0 <= j < i ==> !is_special(#[trigger] s@[j]),
        decreases s@.len() - i,
    {
        let c = s[i];
        if c == ',' || c == '"' || c == '\n' || c == '\r' {
            assert(is_special(s@[i as int]));
            return true;
        }
        i += 1;
    }
    false
}

/// Appends a text field as `field_text` writes it.
pub fn push_field(out: &mut Vec<char>, s: &Vec<char>)
    ensures
        final(out)@ == old(out)@ + field_text(s@),
{
    if !field_needs_quotes(s) {
        let mut i: usize = 0;
        while i < s.len()
            invariant
                0 <= i <= s@.len(),
                out@ == old(out)@ + s@.take(i as int),
            decreases s@.len() - i,
        {
            out.push(s[i]);
            assert(s@.take(i + 1) =~= s@.take(i as int).push(s@[i as int]));
            i += 1;
        }
        assert(s@.take(i as int) =~= s@);
    } else {
        out.push('"');
        let mut i: usize = 0;
        while i < s.len()
            invariant
                0 <= i <= s@.len(),
                out@ == old(out)@ + seq!['"'] + doubled(s@.take(i as int)),
            decreases s@.len() - i,
        {
            let ghost before = out@;
            let c = s[i];
            out.push(c);
            if c == '"' {
                out.push('"');
            }
            assert(s@.take(i + 1).drop_last() =~= s@.take(i as int));
            assert(out@ =~= before + doubled(s@.take(i + 1)).skip(doubled(s@.take(i as int)).len() as int));
            assert(out@ =~= old(out)@ + seq!['"'] + doubled(s@.take(i + 1)));
            i += 1;
        }
        assert(s@.take(i as int) =~= s@);
        out.push('"');
        assert(final(out)@ =~= old(out)@ + field_text(s@));
    }
}

/// Appends a field that may be missing, as `cell_text` writes it.
pub fn push_cell(out: &mut Vec<char>, x: &Option<Vec<char>>)
    ensures
        final(out)@ == old(out)@ + cell_text(opt_view(*x)),
{
    match x {
        Some(s) => push_field(out, s),
        None => {
            assert(old(out)@ + cell_text(opt_view(*x)) =~= old(out)@);
        },
    }
}

/// Appends the line of one row.
pub fn push_line(out: &mut Vec<char>, r: &Row)
    ensures
        final(out)@ == old(out)@ + line_text(r@),
{
    push_field(out, &r.country);
    out.push(',');
    push_field(out, &r.region);
    out.push(',');
    push_cell(out, &r.population);
    out.push(',');
    push_cell(out, &r.area);
    out.push(',');
    push_cell(out, &r.density);
    out.push('\n');
    assert(final(out)@ =~= old(out)@ + line_text(r@));
}

/// The CSV text of a table of rows: the header, then each row's line.
pub fn write_table(rows: &Vec<Row>) -> (r: Vec<char>)
    ensures
        r@ == table_text(rows@.map_values(|x: Row| x@)),
{
    let mut out: Vec<char> = vec![
        'c', 'o', 'u', 'n', 't', 'r', 'y', ',', 'r', 'e', 'g', 'i', 'o', 'n', ',',
        'p', 'o', 'p', 'u', 'l', 'a', 't', 'i', 'o', 'n', ',', 'a', 'r', 'e', 'a', ',',
        'd', 'e', 'n', 's', 'i', 't', 'y', '\n',
    ];
    assert(out@ =~= header_text());
    let ghost views = rows@.map_values(|x: Row| x@);
    let mut i: usize = 0;
    while i < rows.len()
        invariant
            0 <= i <= rows@.len(),
            views == rows@.map_values(|x: Row| x@),
            out@ == header_text() + lines_text(views.take(i as int)),
        decreases rows@.len() - i,
    {
        push_line(&mut out, &rows[i]);
        assert(views.take(i + 1).drop_last() =~= views.take(i as int));
        assert(out@ =~= header_text() + lines_text(views.take(i + 1)));
        i += 1;
    }
    assert(views.take(i as int) =~= views);
    out
}

/// Where a reader stands in a field.
pub enum ReadMode {
    /// Nothing of the field read yet.
    Start,
    /// Inside a field without quotes.
    Plain,
    /// Inside a quoted field.
    Quoted,
    /// Just after a quote inside a quoted field.
    QuoteSeen,
}

/// What a reader of CSV text has read so far: the finished records, the
/// finished fields of the current record, and the current field.
pub struct ReadState {
    pub records: Seq<Seq<Seq<char>>>,
    pub fields: Seq<Seq<char>>,
    pub cur: Seq<char>,
    pub mode: ReadMode,
}

pub open spec fn end_field(st: ReadState) -> ReadState {
    ReadState { records: st.records, fields: st.fields.push(st.cur), cur: seq![], mode: ReadMode::Start }
}

pub open spec fn end_record(st: ReadState) -> ReadState {
    ReadState { records: st.records.push(st.fields.push(st.cur)), fields: seq![], cur: seq![], mode: ReadMode::Start }
}

pub open spec fn add_char(st: ReadState, c: char, mode: ReadMode) -> ReadState {
    ReadState { cur: st.cur.push(c), mode, ..st }
}

/// One step of a reader after RFC 4180: a field may be quoted, a quote in a
/// quoted field is written twice, and a comma or a line feed outside quotes
/// ends a field or a record.
pub open spec fn read_step(st: ReadState, c: char) -> ReadState {
    match st.mode {
        ReadMode::Quoted => if c == '"' {
            ReadState { mode: ReadMode::QuoteSeen, ..st }
        } else {
            add_char(st, c, ReadMode::Quoted)
        },
        ReadMode::QuoteSeen if c == '"' => add_char(st, c, ReadMode::Quoted),
        ReadMode::Start if c == '"' => ReadState { mode: ReadMode::Quoted, ..st },
        _ => if c == ',' {
            end_field(st)
        } else if c == '\n' {
            end_record(st)
        } else {
            add_char(st, c, ReadMode::Plain)
        },
    }
}

pub open spec fn read_from(st: ReadState, s: Seq<char>) -> ReadState
    decreases s.len(),
{
    if s.len() == 0 {
        st
    } else {
        read_step(read_from(st, s.drop_last()), s.last())
    }
}

pub open spec fn fresh() -> ReadState {
    ReadState { records: seq![], fields: seq![], cur: seq![], mode: ReadMode::Start }
}

/// The records that a reader finds in a CSV text.
pub open spec fn read_csv(s: Seq<char>) -> Seq<Seq<Seq<char>>> {
    read_from(fresh(), s).records
}

pub open spec fn cell_value(x: Option<Seq<char>>) -> Seq<char> {
    match x {
        Some(s) => s,
        None => seq![],
    }
}

/// The five fields of a row as a reader gives them back; a missing value
/// comes back as an empty field.
pub open spec fn row_fields(r: RowView) -> Seq<Seq<char>> {
    seq![r.country, r.region, cell_value(r.population), cell_value(r.area), cell_value(r.density)]
}

pub open spec fn header_fields() -> Seq<Seq<char>> {
    seq![seq!['c', 'o', 'u', 'n', 't', 'r', 'y'], seq!['r', 'e', 'g', 'i', 'o', 'n'], seq!['p', 'o', 'p', 'u', 'l', 'a', 't', 'i', 'o', 'n'], seq!['a', 'r', 'e', 'a'], seq!['d', 'e', 'n', 's', 'i', 't', 'y']]
}

/// The header line read as a row.
pub open spec fn header_row() -> RowView {
    RowView {
        country: seq!['c', 'o', 'u', 'n', 't', 'r', 'y'],
        region: seq!['r', 'e', 'g', 'i', 'o', 'n'],
        population: Some(seq!['p', 'o', 'p', 'u', 'l', 'a', 't', 'i', 'o', 'n']),
        area: Some(seq!['a', 'r', 'e', 'a']),
        density: Some(seq!['d', 'e', 'n', 's', 'i', 't', 'y']),
    }
}


pub proof fn lemma_read_concat(st: ReadState, a: Seq<char>, b: Seq<char>)
    ensures
        read_from(st, a + b) == read_from(read_from(st, a), b),
    decreases b.len(),
{
    if b.len() == 0 {
        assert(a + b =~= a);
    } else {
        assert((a + b).drop_last() =~= a + b.drop_last());
        lemma_read_concat(st, a, b.drop_last());
    }
}

proof fn lemma_read_one(st: ReadState, c: char)
    ensures
        read_from(st, seq![c]) == read_step(st, c),
        read_from(st, seq![c, c]) == read_step(read_step(st, c), c),
{
    assert(seq![c].drop_last() =~= Seq::<char>::empty());
    assert(read_from(st, Seq::<char>::empty()) == st);
    assert(seq![c, c].drop_last() =~= seq![c]);
}

pub open spec fn at_field_start(st: ReadState) -> bool {
    st.cur == Seq::<char>::empty() && st.mode == ReadMode::Start
}

pub open spec fn ends_fields(m: ReadMode) -> bool {
    m == ReadMode::Start || m == ReadMode::Plain || m == ReadMode::QuoteSeen
}

proof fn lemma_read_plain(st: ReadState, f: Seq<char>)
    requires
        at_field_start(st),
        !needs_quotes(f),
    ensures
        read_from(st, f) == (ReadState { cur: f, mode: read_from(st, f).mode, ..st }),
        ends_fields(read_from(st, f).mode),
        read_from(st, f).mode != ReadMode::QuoteSeen,
    decreases f.len(),
{
    if f.len() == 0 {
        assert(f =~= Seq::<char>::empty());
    } else {
        let g = f.drop_last();
        assert(!needs_quotes(g)) by {
            if needs_quotes(g) {
                let i = choose|i: int| 0 <= i < g.len() && is_special(#[trigger] g[i]);
                assert(f[i] == g[i]);
            }
        }
        assert(!is_special(f[f.len() - 1]));
        lemma_read_plain(st, g);
        assert(g.push(f.last()) =~= f);
    }
}

proof fn lemma_read_quoted(st: ReadState, f: Seq<char>)
    requires
        at_field_start(st),
    ensures
        read_from(st, seq!['"'] + doubled(f)) == (ReadState { cur: f, mode: ReadMode::Quoted, ..st }),
    decreases f.len(),
{
    if f.len() == 0 {
        assert(seq!['"'] + doubled(f) =~= seq!['"']);
        assert(seq!['"'].drop_last() =~= Seq::<char>::empty());
        assert(f =~= Seq::<char>::empty());
        assert(read_from(st, Seq::<char>::empty()) == st);
        assert(seq!['"'].last() == '"');
        assert(read_from(st, seq!['"']) == read_step(st, '"'));
        assert(read_step(st, '"') == (ReadState { mode: ReadMode::Quoted, ..st }));
    } else {
        let g = f.drop_last();
        let c = f.last();
        lemma_read_quoted(st, g);
        let piece = if c == '"' { seq!['"', '"'] } else { seq![c] };
        assert(seq!['"'] + doubled(f) =~= (seq!['"'] + doubled(g)) + piece);
        lemma_read_concat(st, seq!['"'] + doubled(g), piece);
        lemma_read_one(read_from(st, seq!['"'] + doubled(g)), c);
        assert(g.push(c) =~= f);
    }
}

/// Reading a written field leaves its characters as the current field, in a
/// mode in which a comma or a line feed ends it.
proof fn lemma_read_field(st: ReadState, f: Seq<char>)
    requires
        at_field_start(st),
    ensures
        read_from(st, field_text(f)).cur == f,
        read_from(st, field_text(f)).records == st.records,
        read_from(st, field_text(f)).fields == st.fields,
        ends_fields(read_from(st, field_text(f)).mode),
{
    if needs_quotes(f) {
        lemma_read_quoted(st, f);
        lemma_read_concat(st, seq!['"'] + doubled(f), seq!['"']);
        lemma_read_one(read_from(st, seq!['"'] + doubled(f)), '"');
    } else {
        lemma_read_plain(st, f);
    }
}

proof fn lemma_read_field_then(st: ReadState, f: Seq<char>, sep: char)
    requires
        at_field_start(st),
        sep == ',' || sep == '\n',
    ensures
        read_from(st, field_text(f) + seq![sep]) == if sep == ',' {
            ReadState { fields: st.fields.push(f), ..st }
        } else {
            ReadState { records: st.records.push(st.fields.push(f)), fields: seq![], ..st }
        },
{
    lemma_read_field(st, f);
    lemma_read_concat(st, field_text(f), seq![sep]);
    lemma_read_one(read_from(st, field_text(f)), sep);
    let mid = read_from(st, field_text(f));
    if mid.mode == ReadMode::QuoteSeen {
        assert(read_step(mid, sep) == if sep == ',' { end_field(mid) } else { end_record(mid) });
    }
}

proof fn lemma_cell_field(x: Option<Seq<char>>)
    ensures
        cell_text(x) == field_text(cell_value(x)),
{
    if x is None {
        assert(!needs_quotes(Seq::<char>::empty()));
    }
}

/// Reading one written line adds that row's fields as one record.
pub proof fn lemma_read_line(st: ReadState, r: RowView)
    requires
        at_field_start(st),
        st.fields == Seq::<Seq<char>>::empty(),
    ensures
        read_from(st, line_text(r)) == (ReadState { records: st.records.push(row_fields(r)), ..st }),
{
    lemma_cell_field(r.population);
    lemma_cell_field(r.area);
    lemma_cell_field(r.density);
    let p = cell_value(r.population);
    let a = cell_value(r.area);
    let d = cell_value(r.density);
    let s1 = field_text(r.country) + seq![','];
    let s2 = field_text(r.region) + seq![','];
    let s3 = field_text(p) + seq![','];
    let s4 = field_text(a) + seq![','];
    let s5 = field_text(d) + seq!['\n'];
    assert(line_text(r) =~= s1 + s2 + s3 + s4 + s5);
    lemma_read_concat(st, s1 + s2 + s3 + s4, s5);
    lemma_read_concat(st, s1 + s2 + s3, s4);
    lemma_read_concat(st, s1 + s2, s3);
    lemma_read_concat(st, s1, s2);
    lemma_read_field_then(st, r.country, ',');
    let t1 = read_from(st, s1);
    lemma_read_field_then(t1, r.region, ',');
    let t2 = read_from(t1, s2);
    lemma_read_field_then(t2, p, ',');
    let t3 = read_from(t2, s3);
    lemma_read_field_then(t3, a, ',');
    let t4 = read_from(t3, s4);
    lemma_read_field_then(t4, d, '\n');
    assert(t4.fields.push(d) =~= row_fields(r));
}


proof fn lemma_plain_country()
    ensures
        !needs_quotes(seq!['c', 'o', 'u', 'n', 't', 'r', 'y']),
{
    let s = seq!['c', 'o', 'u', 'n', 't', 'r', 'y'];
        assert(s[0] == 'c');
        assert(s[1] == 'o');
        assert(s[2] == 'u');
        assert(s[3] == 'n');
        assert(s[4] == 't');
        assert(s[5] == 'r');
        assert(s[6] == 'y');
    assert forall|i: int| 0 <= i < s.len() implies !is_special(#[trigger] s[i]) by {
        assert(i == 0 || i == 1 || i == 2 || i == 3 || i == 4 || i == 5 || i == 6);
    }
}

proof fn lemma_plain_region()
    ensures
        !needs_quotes(seq!['r', 'e', 'g', 'i', 'o', 'n']),
{
    let s = seq!['r', 'e', 'g', 'i', 'o', 'n'];
        assert(s[0] == 'r');
        assert(s[1] == 'e');
        assert(s[2] == 'g');
        assert(s[3] == 'i');
        assert(s[4] == 'o');
        assert(s[5] == 'n');
    assert forall|i: int| 0 <= i < s.len() implies !is_special(#[trigger] s[i]) by {
        assert(i == 0 || i == 1 || i == 2 || i == 3 || i == 4 || i == 5);
    }
}

proof fn lemma_plain_population()
    ensures
        !needs_quotes(seq!['p', 'o', 'p', 'u', 'l', 'a', 't', 'i', 'o', 'n']),
{
    let s = seq!['p', 'o', 'p', 'u', 'l', 'a', 't', 'i', 'o', 'n'];
        assert(s[0] == 'p');
        assert(s[1] == 'o');
        assert(s[2] == 'p');
        assert(s[3] == 'u');
        assert(s[4] == 'l');
        assert(s[5] == 'a');
        assert(s[6] == 't');
        assert(s[7] == 'i');
        assert(s[8] == 'o');
        assert(s[9] == 'n');
    assert forall|i: int| 0 <= i < s.len() implies !is_special(#[trigger] s[i]) by {
        assert(i == 0 || i == 1 || i == 2 || i == 3 || i == 4 || i == 5 || i == 6 || i == 7 || i == 8 || i == 9);
    }
}

proof fn lemma_plain_area()
    ensures
        !needs_quotes(seq!['a', 'r', 'e', 'a']),
{
    let s = seq!['a', 'r', 'e', 'a'];
        assert(s[0] == 'a');
        assert(s[1] == 'r');
        assert(s[2] == 'e');
        assert(s[3] == 'a');
    assert forall|i: int| 0 <= i < s.len() implies !is_special(#[trigger] s[i]) by {
        assert(i == 0 || i == 1 || i == 2 || i == 3);
    }
}

proof fn lemma_plain_density()
    ensures
        !needs_quotes(seq!['d', 'e', 'n', 's', 'i', 't', 'y']),
{
    let s = seq!['d', 'e', 'n', 's', 'i', 't', 'y'];
        assert(s[0] == 'd');
        assert(s[1] == 'e');
        assert(s[2] == 'n');
        assert(s[3] == 's');
        assert(s[4] == 'i');
        assert(s[5] == 't');
        assert(s[6] == 'y');
    assert forall|i: int| 0 <= i < s.len() implies !is_special(#[trigger] s[i]) by {
        assert(i == 0 || i == 1 || i == 2 || i == 3 || i == 4 || i == 5 || i == 6);
    }
}

proof fn lemma_header()
    ensures
        header_text() == line_text(header_row()),
        row_fields(header_row()) == header_fields(),
{
    lemma_plain_country();
    lemma_plain_region();
    lemma_plain_population();
    lemma_plain_area();
    lemma_plain_density();
    assert(header_text() =~= line_text(header_row()));
    assert(row_fields(header_row()) =~= header_fields());
}

/// Reading the lines of rows adds one record per row, in order.
proof fn lemma_read_lines(st: ReadState, rows: Seq<RowView>)
    requires
        at_field_start(st),
        st.fields == Seq::<Seq<char>>::empty(),
    ensures
        read_from(st, lines_text(rows)) == (ReadState {
            records: st.records + rows.map_values(|r: RowView| row_fields(r)),
            ..st
        }),
    decreases rows.len(),
{
    if rows.len() == 0 {
        assert(lines_text(rows) =~= Seq::<char>::empty());
        assert(st.records + rows.map_values(|r: RowView| row_fields(r)) =~= st.records);
    } else {
        let init = rows.drop_last();
        lemma_read_lines(st, init);
        lemma_read_concat(st, lines_text(init), line_text(rows.last()));
        let mid = read_from(st, lines_text(init));
        lemma_read_line(mid, rows.last());
        assert(st.records + rows.map_values(|r: RowView| row_fields(r)) =~= (st.records
            + init.map_values(|r: RowView| row_fields(r))).push(row_fields(rows.last())));
    }
}

/// Reading the text of a table gives the header record, then each row's fields.
pub(crate) proof fn lemma_read_table(rows: Seq<RowView>)
    ensures
        read_csv(table_text(rows)) == seq![header_fields()] + rows.map_values(|r: RowView| row_fields(r)),
{
    lemma_header();
    lemma_read_concat(fresh(), header_text(), lines_text(rows));
    lemma_read_line(fresh(), header_row());
    let after = read_from(fresh(), header_text());
    lemma_read_lines(after, rows);
    assert(after.records =~= seq![header_fields()]);
}

} // verus!
