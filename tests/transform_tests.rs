use world_etl::config::parse_args;
use world_etl::csv::{write_table, Row};
use world_etl::decimal::{density_text, parse_decimal, parse_number, Decimal};
use world_etl::rounding::write_rounded;
use world_etl::json::Json;
use world_etl::loader::{import_command, schema_statement, validation_query};
use world_etl::transform::{classify, map_record, transform, transform_parsed, ErrorKind, Shape};

const HEADER: &str = "country,region,population,area,density\n";

fn chars(s: &str) -> Vec<char> {
    s.chars().collect()
}

fn text(s: &str) -> Json {
    Json::Str(chars(s))
}

fn num(s: &str) -> Json {
    Json::Number(chars(s))
}

fn obj(members: Vec<(&str, Json)>) -> Json {
    Json::Object(members.into_iter().map(|(k, v)| (chars(k), v)).collect())
}

fn string(v: &[char]) -> String {
    v.iter().collect()
}

const EXAMPLE: &str = r#"[{"name":{"common":"Testland"},"region":"TestRegion","population":1000,"area":100}, {"name":{"common":"NoArea"},"region":"TestRegion","population":500}]"#;

const EXAMPLE_CSV: &str =
    "country,region,population,area,density\nTestland,TestRegion,1000,100,10\nNoArea,TestRegion,500,,\n";

#[test]
fn end_to_end_example() {
    assert_eq!(transform(EXAMPLE), Ok(EXAMPLE_CSV.to_string()));
}

#[test]
fn wrapped_in_data_gives_same_rows() {
    let doc = format!("{{\"data\": {}}}", EXAMPLE);
    assert_eq!(transform(&doc), Ok(EXAMPLE_CSV.to_string()));
}

#[test]
fn double_encoded_gives_same_rows() {
    let inner = EXAMPLE.replace('\\', "\\\\").replace('"', "\\\"");
    let doc = format!("\"{}\"", inner);
    assert_eq!(transform(&doc), Ok(EXAMPLE_CSV.to_string()));
}

#[test]
fn double_encoded_wrapper_gives_same_rows() {
    let wrapped = format!("{{\"data\": {}}}", EXAMPLE);
    let doc = format!("\"{}\"", wrapped.replace('"', "\\\""));
    assert_eq!(transform(&doc), Ok(EXAMPLE_CSV.to_string()));
}

#[test]
fn number_root_is_parse_error() {
    assert_eq!(transform("42"), Err(ErrorKind::Parse));
    assert_eq!(transform("null"), Err(ErrorKind::Parse));
    assert_eq!(transform("true"), Err(ErrorKind::Parse));
}

#[test]
fn malformed_json_is_parse_error() {
    assert_eq!(transform("[{\"name\": "), Err(ErrorKind::Parse));
    assert_eq!(transform(""), Err(ErrorKind::Parse));
}

#[test]
fn unrecognised_shapes_give_header_only() {
    assert_eq!(transform("{\"rows\": []}"), Ok(HEADER.to_string()));
    assert_eq!(transform("\"not json\""), Ok(HEADER.to_string()));
    assert_eq!(transform("{\"data\": 3}"), Ok(HEADER.to_string()));
    assert_eq!(transform("\"17\""), Ok(HEADER.to_string()));
    assert_eq!(transform("[]"), Ok(HEADER.to_string()));
}

#[test]
fn missing_name_and_region_default_to_unknown() {
    let out = transform("[{\"population\": 10}, {\"name\": {}}, {\"name\": {\"common\": null}, \"region\": null}]").unwrap();
    assert_eq!(out, format!("{}Unknown,Unknown,10,,\nUnknown,Unknown,,,\nUnknown,Unknown,,,\n", HEADER));
}

#[test]
fn mistyped_fields_degrade() {
    let out = transform("[{\"name\": \"x\", \"region\": 5, \"population\": \"many\", \"area\": 3}, 7]").unwrap();
    assert_eq!(out, format!("{}Unknown,5,many,3,\nUnknown,Unknown,,,\n", HEADER));
}

#[test]
fn scalar_names_and_regions_are_kept() {
    let out = transform("[{\"name\": {\"common\": 12}, \"region\": true}, {\"name\": {\"common\": [1]}, \"region\": false}]").unwrap();
    assert_eq!(out, format!("{}12,true,,,\nUnknown,false,,,\n", HEADER));
}

#[test]
fn large_and_exponent_numbers_get_a_density() {
    let out = transform("[{\"population\": 1000000000000000000, \"area\": 1}, {\"population\": 18446744073709551615, \"area\": 5}, {\"population\": 1e20, \"area\": 4}, {\"population\": 3, \"area\": 1e-7}]").unwrap();
    assert_eq!(
        out,
        format!(
            "{}Unknown,Unknown,1000000000000000000,1,1000000000000000000\nUnknown,Unknown,18446744073709551615,5,3689348814741910300\nUnknown,Unknown,1e+20,4,25000000000000000000\nUnknown,Unknown,3,1e-7,30000000\n",
            HEADER
        )
    );
}

#[test]
fn density_absent_without_positive_area() {
    let out = transform(
        "[{\"population\": 10, \"area\": 0}, {\"population\": 10, \"area\": -2}, {\"area\": 4}, {\"population\": 10}]",
    )
    .unwrap();
    assert_eq!(out, format!("{}Unknown,Unknown,10,0,\nUnknown,Unknown,10,-2,\nUnknown,Unknown,,4,\nUnknown,Unknown,10,,\n", HEADER));
}

#[test]
fn density_values() {
    let out = transform("[{\"population\": 7, \"area\": 2}, {\"population\": 1000, \"area\": 3}, {\"population\": 3, \"area\": 0.5}, {\"population\": 0, \"area\": 9}]").unwrap();
    assert_eq!(
        out,
        format!(
            "{}Unknown,Unknown,7,2,3.5\nUnknown,Unknown,1000,3,333.33333333333333\nUnknown,Unknown,3,0.5,6\nUnknown,Unknown,0,9,0\n",
            HEADER
        )
    );
}

#[test]
fn density_text_exact_values() {
    assert_eq!(density_text(&chars("1000"), &chars("100")), Some(chars("10")));
    assert_eq!(density_text(&chars("-7"), &chars("2")), Some(chars("-3.5")));
    assert_eq!(density_text(&chars("1"), &chars("8")), Some(chars("0.125")));
    assert_eq!(density_text(&chars("2.5"), &chars("0.25")), Some(chars("10")));
    assert_eq!(density_text(&chars("1"), &chars("0")), None);
    assert_eq!(density_text(&chars("1e3"), &chars("2")), Some(chars("500")));
    assert_eq!(density_text(&chars("1.0e+20"), &chars("1")), Some(chars("100000000000000000000")));
    assert_eq!(density_text(&chars("1"), &chars("1e-07")), Some(chars("10000000")));
    assert_eq!(density_text(&chars("5"), &chars("2E1")), Some(chars("0.25")));
    let huge = density_text(&chars("1e300"), &chars("1e-300")).unwrap();
    assert_eq!(string(&huge), format!("1{}", "0".repeat(600)));
    assert_eq!(density_text(&chars("1"), &chars("1e40")), Some(chars(&format!("0.{}1", "0".repeat(39)))));
    assert_eq!(
        density_text(&chars("700000000000000000000000000000000000"), &chars("100000000000000000000000000000000000e2")),
        Some(chars("0.07"))
    );
    assert_eq!(
        density_text(&chars("-123456789012345678901234567890123456"), &chars("1e50")),
        Some(chars("-0.0000000000000012345678901234568"))
    );
    assert_eq!(density_text(&chars("1"), &chars("-1e-300")), None);
    assert_eq!(density_text(&chars("1e"), &chars("2")), None);
    assert_eq!(density_text(&chars("1e12345"), &chars("2")), None);
}

#[test]
fn write_rounded_keeps_seventeen_digits() {
    assert_eq!(write_rounded(false, 2, 3, 0), chars("0.66666666666666667"));
    assert_eq!(write_rounded(true, 1, 3, 0), chars("-0.33333333333333333"));
    assert_eq!(write_rounded(false, 12, 4, 0), chars("3"));
    assert_eq!(write_rounded(true, 7, 2, 2), chars("-350"));
    assert_eq!(write_rounded(false, 0, 5, 3), chars("0"));
    assert_eq!(write_rounded(false, 1, 3, 40), chars(&format!("{}{}", "3".repeat(17), "0".repeat(23))));
    assert_eq!(write_rounded(false, 199999999999999999, 2, 0), chars("100000000000000000"));
}

#[test]
fn seventeen_digits_read_back_as_the_nearest_double() {
    for (p, a) in [(2.0f64, 3.0f64), (1000.0, 3.0), (51000000.0, 100210.0), (1.0, 7.0)] {
        let t = density_text(&chars(&p.to_string()), &chars(&a.to_string())).unwrap();
        assert_eq!(string(&t).parse::<f64>().unwrap(), p / a);
    }
}

#[test]
fn parse_decimal_literals() {
    assert_eq!(parse_decimal(&chars("100")), Some(Decimal { negative: false, mantissa: 100, scale: 0 }));
    assert_eq!(parse_decimal(&chars("-0.44")), Some(Decimal { negative: true, mantissa: 44, scale: 2 }));
    assert_eq!(parse_decimal(&chars("12.")), None);
    assert_eq!(parse_decimal(&chars(".5")), None);
    assert_eq!(parse_decimal(&chars("1.2.3")), None);
    assert_eq!(parse_decimal(&chars("-")), None);
    assert_eq!(
        parse_decimal(&chars("1234567890123456789")),
        Some(Decimal { negative: false, mantissa: 1234567890123456789, scale: 0 })
    );
    assert_eq!(parse_decimal(&chars("99999999999999999999999999999999999999")), None);
    assert_eq!(parse_number(&chars("-1.5e-07")), Some((true, 15, -8)));
    assert_eq!(parse_number(&chars("2E+3")), Some((false, 2, 3)));
    assert_eq!(parse_number(&chars("2e+")), None);
    assert_eq!(parse_number(&chars("2e1e1")), None);
    assert_eq!(
        parse_decimal(&chars("123456789012345678")),
        Some(Decimal { negative: false, mantissa: 123456789012345678, scale: 0 })
    );
}

#[test]
fn fields_with_commas_and_quotes_are_quoted() {
    let out = transform(r#"[{"name":{"common":"Korea, Republic of"},"region":"Say \"hi\"","population":1,"area":1}]"#).unwrap();
    assert_eq!(out, format!("{}\"Korea, Republic of\",\"Say \"\"hi\"\"\",1,1,1\n", HEADER));
}

#[test]
fn map_record_reads_members() {
    let rec = obj(vec![
        ("name", obj(vec![("common", text("Testland"))])),
        ("region", text("TestRegion")),
        ("population", num("1000")),
        ("area", num("100")),
    ]);
    let row = map_record(&rec);
    assert_eq!(string(&row.country), "Testland");
    assert_eq!(string(&row.region), "TestRegion");
    assert_eq!(row.population, Some(chars("1000")));
    assert_eq!(row.area, Some(chars("100")));
    assert_eq!(row.density, Some(chars("10")));
}

#[test]
fn classify_shapes() {
    assert_eq!(classify(&Json::Array(vec![])), Shape::Array);
    assert_eq!(classify(&obj(vec![("data", Json::Array(vec![]))])), Shape::ObjectWithData);
    assert_eq!(classify(&obj(vec![("data", Json::Null)])), Shape::Other);
    assert_eq!(classify(&text("x")), Shape::EncodedString);
    assert_eq!(classify(&num("1")), Shape::Other);
}

#[test]
fn transform_parsed_uses_decoded_value() {
    let rec = obj(vec![("region", text("R"))]);
    let out = transform_parsed(Some(text("ignored")), Some(Json::Array(vec![rec]))).unwrap();
    assert_eq!(string(&out), format!("{}Unknown,R,,,\n", HEADER));
    assert_eq!(transform_parsed(None, None), Err(ErrorKind::Parse));
    assert_eq!(transform_parsed(Some(Json::Bool(true)), None), Err(ErrorKind::Parse));
}

/// A reader of CSV text after RFC 4180: quoted fields, doubled quotes.
fn read_csv(s: &str) -> Vec<Vec<String>> {
    let mut rows = Vec::new();
    let mut row = Vec::new();
    let mut field = String::new();
    let mut quoted = false;
    let mut cs = s.chars().peekable();
    while let Some(c) = cs.next() {
        if quoted {
            if c == '"' {
                if cs.peek() == Some(&'"') {
                    cs.next();
                    field.push('"');
                } else {
                    quoted = false;
                }
            } else {
                field.push(c);
            }
        } else if c == '"' {
            quoted = true;
        } else if c == ',' {
            row.push(std::mem::take(&mut field));
        } else if c == '\n' {
            row.push(std::mem::take(&mut field));
            rows.push(std::mem::take(&mut row));
        } else {
            field.push(c);
        }
    }
    rows
}

fn row(country: &str, region: &str, p: Option<&str>, a: Option<&str>, d: Option<&str>) -> Row {
    Row {
        country: chars(country),
        region: chars(region),
        population: p.map(chars),
        area: a.map(chars),
        density: d.map(chars),
    }
}

#[test]
fn table_round_trips_through_a_csv_reader() {
    let rows = vec![
        row("Korea, Republic of", "Asia", Some("51000000"), Some("100210"), Some("508.9312444")),
        row("Say \"hi\"", "Line\nbreak", None, Some("0.44"), None),
        row("", "Plain", Some("3"), None, None),
    ];
    let text = string(&write_table(&rows));
    let read = read_csv(&text);
    assert_eq!(read.len(), rows.len() + 1);
    assert_eq!(read[0], vec!["country", "region", "population", "area", "density"]);
    for (r, got) in rows.iter().zip(read[1..].iter()) {
        let opt = |x: &Option<Vec<char>>| x.as_ref().map(|v| string(v)).unwrap_or_default();
        assert_eq!(got, &vec![string(&r.country), string(&r.region), opt(&r.population), opt(&r.area), opt(&r.density)]);
    }
}

#[test]
fn empty_table_is_header_only() {
    assert_eq!(string(&write_table(&vec![])), HEADER);
}

#[test]
fn flags_override_defaults() {
    let c = parse_args(&vec![]).unwrap();
    assert_eq!((c.db.as_str(), c.table.as_str(), c.csv.as_str()), ("world_data.db", "countries", "countries.csv"));
    let args: Vec<String> = ["--db", "x.db", "--table", "t", "--csv", "o.csv"].iter().map(|s| s.to_string()).collect();
    let c = parse_args(&args).unwrap();
    assert_eq!((c.db.as_str(), c.table.as_str(), c.csv.as_str()), ("x.db", "t", "o.csv"));
}

#[test]
fn bad_flags_are_argument_errors() {
    let unknown: Vec<String> = vec!["--verbose".to_string()];
    assert_eq!(parse_args(&unknown).unwrap_err(), ErrorKind::Argument);
    let missing: Vec<String> = vec!["--db".to_string()];
    assert_eq!(parse_args(&missing).unwrap_err(), ErrorKind::Argument);
}

#[test]
fn load_statements_replace_contents() {
    assert_eq!(
        schema_statement("countries"),
        "CREATE TABLE IF NOT EXISTS countries (country TEXT NOT NULL, region TEXT NOT NULL, population INTEGER, area REAL, density REAL); DELETE FROM countries;"
    );
    assert_eq!(import_command("out.csv", "t"), ".import --skip 1 out.csv t");
    assert_eq!(validation_query("t"), "SELECT region, COUNT(*) AS cnt FROM t GROUP BY region ORDER BY cnt DESC;");
}
