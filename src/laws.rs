//! Properties of the transform that relate several of its parts.
use vstd::prelude::*;
use crate::json::{Json, field, member};
use crate::csv::{RowView, read_csv, table_text, header_fields, row_fields, lemma_read_table};
use crate::decimal::number_value;
use crate::rounding::rounded_text;
use crate::transform::{
    row_of, country_of, unknown_text, region_key, population_key, area_key, number_text,
    transform_result, records_of, normalized, data_key,
};

verus! {

/// The density rule: a record gets a density exactly when its population and
/// its area are number literals and the area is greater than zero. The
/// density is then `population / area` rounded to seventeen significant
/// digits, as `lemma_rounding_error` bounds it.
pub proof fn lemma_density_rule(rec: Json)
    ensures
        ({
            let p = number_text(member(rec, population_key()));
            let a = number_text(member(rec, area_key()));
            let readable = p is Some && a is Some && number_value(p->0) is Some && number_value(a->0) is Some;
            let pv = number_value(p->0)->0;
            let av = number_value(a->0)->0;
            &&& row_of(rec).density is Some <==> (readable && !av.0 && av.1 > 0)
            &&& row_of(rec).density is Some ==> row_of(rec).density == Some(
                rounded_text(pv.0, pv.1, av.1, pv.2 - av.2),
            )
        }),
{
}

/// Shape invariance: the same records give the same table whether the
/// document is the bare array, an object holding it under `data`, or a string
/// that decodes to either of these.
pub proof fn lemma_shape_invariance(
    records: Vec<Json>,
    members: Vec<(Vec<char>, Json)>,
    text: Vec<char>,
    decoded_a: Option<Json>,
    decoded_b: Option<Json>,
)
    requires
        field(members@, data_key()) == Some(Json::Array(records)),
    ensures
        transform_result(Some(Json::Array(records)), decoded_a) == transform_result(
            Some(Json::Object(members)),
            decoded_b,
        ),
        transform_result(Some(Json::Array(records)), decoded_a) == transform_result(
            Some(Json::Str(text)),
            Some(Json::Array(records)),
        ),
        transform_result(Some(Json::Array(records)), decoded_a) == transform_result(
            Some(Json::Str(text)),
            Some(Json::Object(members)),
        ),
        records_of(normalized(Json::Array(records), decoded_a)) == records@,
{
}

/// Defaulting: a record without `name.common` is from country `Unknown`, and
/// one without `region` is in region `Unknown`.
pub proof fn lemma_defaults(rec: Json)
    ensures
        country_of(rec) is None ==> row_of(rec).country == unknown_text(),
        member(rec, region_key()) is None ==> row_of(rec).region == unknown_text(),
{
}

/// Round trip: reading the CSV text of `n` rows with a reader after RFC 4180
/// gives the header record and then `n` records, each holding the five fields
/// of its row in order, quoted fields included; a missing value reads back as
/// an empty field.
pub proof fn lemma_round_trip(rows: Seq<RowView>)
    ensures
        read_csv(table_text(rows)).len() == rows.len() + 1,
        read_csv(table_text(rows))[0] == header_fields(),
        forall|i: int| 0 <= i < rows.len() ==> #[trigger] read_csv(table_text(rows))[i + 1] == row_fields(rows[i]),
{
    lemma_read_table(rows);
}

} // verus!
