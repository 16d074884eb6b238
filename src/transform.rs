//! From a JSON document of unknown shape to the canonical rows and their CSV text.
use vstd::prelude::*;
use crate::json::{Json, parsed_json, parse_json, member, find_member, copy_chars, chars_of, string_of};
use crate::decimal::{quotient_of_literals, density_text};
use crate::csv::{Row, RowView, table_text, write_table};

verus! {

/// The ways in which a run of the pipeline can fail.
#[derive(Debug, Clone, Copy, PartialEq, Eq, Structural)]
pub enum ErrorKind {
    /// A command-line flag is unknown or lacks its value.
    Argument,
    /// The source document could not be fetched.
    Transport,
    /// The source document is not JSON, or its root is not a string, an
    /// array or an object.
    Parse,
    /// The destination store refused a statement.
    Store,
}

/// What row discovery made of a normalised root.
#[derive(Debug, Clone, Copy, PartialEq, Eq, Structural)]
pub enum Shape {
    /// An array: its elements are the records.
    Array,
    /// An object whose `data` member is an array of records.
    ObjectWithData,
    /// A string that stayed a string after decoding: no records.
    EncodedString,
    /// Anything else: no records.
    Other,
}

pub open spec fn unknown_text() -> Seq<char> {
    seq!['U', 'n', 'k', 'n', 'o', 'w', 'n']
}

pub open spec fn data_key() -> Seq<char> {
    seq!['d', 'a', 't', 'a']
}

pub open spec fn name_key() -> Seq<char> {
    seq!['n', 'a', 'm', 'e']
}

pub open spec fn common_key() -> Seq<char> {
    seq!['c', 'o', 'm', 'm', 'o', 'n']
}

pub open spec fn region_key() -> Seq<char> {
    seq!['r', 'e', 'g', 'i', 'o', 'n']
}

pub open spec fn population_key() -> Seq<char> {
    seq!['p', 'o', 'p', 'u', 'l', 'a', 't', 'i', 'o', 'n']
}

pub open spec fn area_key() -> Seq<char> {
    seq!['a', 'r', 'e', 'a']
}

/// The root that rows are discovered from: a string root is replaced by the
/// value its text decodes to, when it decodes.
pub open spec fn normalized(root: Json, decoded: Option<Json>) -> Json {
    match root {
        Json::Str(_) => match decoded {
            Some(v) => v,
            None => root,
        },
        _ => root,
    }
}

pub open spec fn shape(root: Json) -> Shape {
    match root {
        Json::Array(_) => Shape::Array,
        Json::Str(_) => Shape::EncodedString,
        _ => match member(root, data_key()) {
            Some(Json::Array(_)) => Shape::ObjectWithData,
            _ => Shape::Other,
        },
    }
}

/// The records of a normalised root, in order.
pub open spec fn records_of(root: Json) -> Seq<Json> {
    match root {
        Json::Array(v) => v@,
        _ => match member(root, data_key()) {
            Some(Json::Array(v)) => v@,
            _ => seq![],
        },
    }
}

/// The text of a scalar member: a string as it is, a number as its literal,
/// a boolean as `true` or `false`; nothing where the member is missing, null,
/// an array or an object.
pub open spec fn scalar_text(x: Option<Json>) -> Option<Seq<char>> {
    match x {
        Some(Json::Str(s)) => Some(s@),
        Some(Json::Number(t)) => Some(t@),
        Some(Json::Bool(b)) => Some(if b { "true"@ } else { "false"@ }),
        _ => None,
    }
}

/// A member's text, or `Unknown` where it has none.
pub open spec fn text_or_unknown(x: Option<Json>) -> Seq<char> {
    match scalar_text(x) {
        Some(t) => t,
        None => unknown_text(),
    }
}

/// The literal of a number member; nothing where it is missing or not a number.
pub open spec fn number_text(x: Option<Json>) -> Option<Seq<char>> {
    match x {
        Some(Json::Number(t)) => Some(t@),
        _ => None,
    }
}

/// The density of a population and an area: defined when both are present
/// and the area is greater than zero.
pub open spec fn density_of(population: Option<Seq<char>>, area: Option<Seq<char>>) -> Option<Seq<char>> {
    match (population, area) {
        (Some(p), Some(a)) => quotient_of_literals(p, a),
        _ => None,
    }
}

pub open spec fn country_of(rec: Json) -> Option<Json> {
    match member(rec, name_key()) {
        Some(n) => member(n, common_key()),
        None => None,
    }
}

/// The canonical row of one source record.
pub open spec fn row_of(rec: Json) -> RowView {
    RowView {
        country: text_or_unknown(country_of(rec)),
        region: text_or_unknown(member(rec, region_key())),
        population: scalar_text(member(rec, population_key())),
        area: scalar_text(member(rec, area_key())),
        density: density_of(
            number_text(member(rec, population_key())),
            number_text(member(rec, area_key())),
        ),
    }
}

pub open spec fn rows_of(records: Seq<Json>) -> Seq<RowView> {
    records.map_values(|r: Json| row_of(r))
}

pub open spec fn row_views(rows: Seq<Row>) -> Seq<RowView> {
    rows.map_values(|x: Row| x@)
}

/// A document root the pipeline accepts: a string, an array or an object.
pub open spec fn is_document_root(v: Json) -> bool {
    v is Str || v is Array || v is Object
}

/// The CSV text for a parsed document and, where its root is a string, the
/// value that string decodes to.
pub open spec fn transform_result(doc: Option<Json>, decoded: Option<Json>) -> Result<Seq<char>, ErrorKind> {
    match doc {
        Some(root) => if is_document_root(root) {
            Ok(table_text(rows_of(records_of(normalized(root, decoded)))))
        } else {
            Err(ErrorKind::Parse)
        },
        None => Err(ErrorKind::Parse),
    }
}

/// The value a string root decodes to.
pub open spec fn decoded_of(doc: Option<Json>) -> Option<Json> {
    match doc {
        Some(Json::Str(s)) => parsed_json(s@),
        _ => None,
    }
}

fn key(k: &str) -> (r: Vec<char>)
    ensures
        r@ == k@,
{
    chars_of(k)
}

fn scalar_member(x: Option<&Json>) -> (r: Option<Vec<char>>)
    ensures
        crate::csv::opt_view(r) == scalar_text(
            match x {
                Some(v) => Some(*v),
                None => None,
            },
        ),
{
    match x {
        Some(Json::Str(s)) => Some(copy_chars(s)),
        Some(Json::Number(t)) => Some(copy_chars(t)),
        Some(Json::Bool(b)) => {
            proof { reveal_strlit("true"); reveal_strlit("false"); }
            let r = if *b { vec!['t', 'r', 'u', 'e'] } else { vec!['f', 'a', 'l', 's', 'e'] };
            assert(r@ =~= (if *b { "true"@ } else { "false"@ }));
            Some(r)
        },
        _ => None,
    }
}

fn text_member(x: Option<&Json>) -> (r: Vec<char>)
    ensures
        r@ == text_or_unknown(
            match x {
                Some(v) => Some(*v),
                None => None,
            },
        ),
{
    match scalar_member(x) {
        Some(t) => t,
        None => {
            let r = vec!['U', 'n', 'k', 'n', 'o', 'w', 'n'];
            assert(r@ =~= unknown_text());
            r
        },
    }
}

fn number_member(x: Option<&Json>) -> (r: Option<Vec<char>>)
    ensures
        crate::csv::opt_view(r) == number_text(
            match x {
                Some(v) => Some(*v),
                None => None,
            },
        ),
{
    match x {
        Some(Json::Number(t)) => Some(copy_chars(t)),
        _ => None,
    }
}

/// The canonical row of one source record.
pub fn map_record(rec: &Json) -> (r: Row)
    ensures
        r@ == row_of(*rec),
{
    proof { reveal_strlit("name"); reveal_strlit("common"); reveal_strlit("region");
        reveal_strlit("population"); reveal_strlit("area"); }
    let name_k = key("name");
    let common_k = key("common");
    let region_k = key("region");
    let population_k = key("population");
    let area_k = key("area");
    assert(name_k@ =~= name_key());
    assert(common_k@ =~= common_key());
    assert(region_k@ =~= region_key());
    assert(population_k@ =~= population_key());
    assert(area_k@ =~= area_key());
    let country = match find_member(rec, &name_k) {
        Some(n) => text_member(find_member(n, &common_k)),
        None => text_member(None),
    };
    let region = text_member(find_member(rec, &region_k));
    let population_m = find_member(rec, &population_k);
    let area_m = find_member(rec, &area_k);
    let density = match (number_member(population_m), number_member(area_m)) {
        (Some(p), Some(a)) => density_text(&p, &a),
        _ => None,
    };
    let population = scalar_member(population_m);
    let area = scalar_member(area_m);
    Row { country, region, population, area, density }
}

/// The canonical rows of a sequence of records, in the same order.
pub fn map_records(records: &Vec<Json>) -> (r: Vec<Row>)
    ensures
        row_views(r@) == rows_of(records@),
{
    let mut out: Vec<Row> = Vec::new();
    let mut i: usize = 0;
    while i < records.len()
        invariant
            0 <= i <= records@.len(),
            row_views(out@) == rows_of(records@.take(i as int)),
            out@.len() == i,
        decreases records@.len() - i,
    {
        let row = map_record(&records[i]);
        let ghost prev = out@;
        let ghost rv = row@;
        assert(rv == row_of(records@[i as int]));
        out.push(row);
        assert(out@ == prev.push(row));
        assert forall|j: int| 0 <= j < i + 1 implies row_views(out@)[j] == rows_of(records@.take(i + 1))[j] by {
            if j < i {
                assert(row_views(prev)[j] == rows_of(records@.take(i as int))[j]);
                assert(out@[j] == prev[j]);
            } else {
                assert(out@[j] == row);
                assert(row_views(out@)[j] == rv);
                assert(records@.take(i + 1)[j] == records@[i as int]);
            }
        }
        assert(row_views(out@) =~= rows_of(records@.take(i + 1)));
        i += 1;
    }
    assert(records@.take(i as int) =~= records@);
    out
}

/// Decides the shape of a normalised root.
pub fn classify(root: &Json) -> (r: Shape)
    ensures
        r == shape(*root),
{
    proof { reveal_strlit("data"); }
    let data_k = key("data");
    assert(data_k@ =~= data_key());
    match root {
        Json::Array(_) => Shape::Array,
        Json::Str(_) => Shape::EncodedString,
        _ => match find_member(root, &data_k) {
            Some(Json::Array(_)) => Shape::ObjectWithData,
            _ => Shape::Other,
        },
    }
}

/// Replaces a string root by the value it decodes to, when it decodes.
pub fn normalize(root: Json, decoded: Option<Json>) -> (r: Json)
    ensures
        r == normalized(root, decoded),
{
    match root {
        Json::Str(_) => match decoded {
            Some(v) => v,
            None => root,
        },
        _ => root,
    }
}

/// The canonical rows of a normalised root, in discovery order.
pub fn discover_rows(root: &Json) -> (r: Vec<Row>)
    ensures
        row_views(r@) == rows_of(records_of(*root)),
{
    proof { reveal_strlit("data"); }
    let data_k = key("data");
    assert(data_k@ =~= data_key());
    match classify(root) {
        Shape::Array => match root {
            Json::Array(v) => map_records(v),
            _ => Vec::new(),
        },
        Shape::ObjectWithData => match find_member(root, &data_k) {
            Some(Json::Array(v)) => map_records(v),
            _ => Vec::new(),
        },
        _ => {
            let r: Vec<Row> = Vec::new();
            assert(row_views(r@) =~= rows_of(records_of(*root)));
            r
        },
    }
}

/// The CSV text for a parsed document (`None` where it is not JSON) and the
/// value its string root decodes to.
pub fn transform_parsed(doc: Option<Json>, decoded: Option<Json>) -> (r: Result<Vec<char>, ErrorKind>)
    ensures
        match r {
            Ok(t) => transform_result(doc, decoded) == Ok::<Seq<char>, ErrorKind>(t@),
            Err(e) => transform_result(doc, decoded) == Err::<Seq<char>, ErrorKind>(e),
        },
{
    match doc {
        Some(root) => {
            let accepted = match &root {
                Json::Str(_) | Json::Array(_) | Json::Object(_) => true,
                _ => false,
            };
            if !accepted {
                return Err(ErrorKind::Parse);
            }
            let root = normalize(root, decoded);
            let rows = discover_rows(&root);
            Ok(write_table(&rows))
        },
        None => Err(ErrorKind::Parse),
    }
}

/// Transforms a JSON document into CSV text: a header line, then one line
/// per record. A string root is decoded once more where its text is JSON.
pub fn transform(doc: &str) -> (r: Result<String, ErrorKind>)
    ensures
        match r {
            Ok(t) => transform_result(parsed_json(doc@), decoded_of(parsed_json(doc@)))
                == Ok::<Seq<char>, ErrorKind>(t@),
            Err(e) => transform_result(parsed_json(doc@), decoded_of(parsed_json(doc@)))
                == Err::<Seq<char>, ErrorKind>(e),
        },
{
    let parsed = parse_json(doc);
    let decoded = match &parsed {
        Some(Json::Str(s)) => {
            let text = string_of(s);
            parse_json(text.as_str())
        },
        _ => None,
    };
    match transform_parsed(parsed, decoded) {
        Ok(t) => Ok(string_of(&t)),
        Err(e) => Err(e),
    }
}

} // verus!
