use spotter::advisor::{advisor_records, build_spec_index, lookup_spec};
use spotter::bucket::InterruptionBucket;
use spotter::json::{Json, JsonNumber};
use spotter::merge::{apply_advisor_records, apply_price_records, merge_records, MergedRecord};
use spotter::price::price_records;
use spotter::records::DocumentError;
use spotter::report::{row_cells, spot_rows, InstanceInfo};
use spotter::select::select_records;

fn num(n: u64) -> Json {
    Json::Number(JsonNumber { unsigned: Some(n), text: n.to_string() })
}

fn fractional(text: &str) -> Json {
    Json::Number(JsonNumber { unsigned: None, text: text.to_string() })
}

fn st(s: &str) -> Json {
    Json::Str(s.to_string())
}

fn obj(entries: Vec<(&str, Json)>) -> Json {
    Json::Object(entries.into_iter().map(|(k, v)| (k.to_string(), v)).collect())
}

fn arr(items: Vec<Json>) -> Json {
    Json::Array(items)
}

fn rates(r: u64, s: u64) -> Json {
    obj(vec![("r", num(r)), ("s", num(s))])
}

fn column(name: &str, usd: &str) -> Json {
    obj(vec![("name", st(name)), ("prices", obj(vec![("USD", st(usd))]))])
}

fn size_entry(size: &str, columns: Vec<Json>) -> Json {
    obj(vec![("size", st(size)), ("valueColumns", arr(columns))])
}

fn type_entry(t: &str, sizes: Vec<Json>) -> Json {
    obj(vec![("type", st(t)), ("sizes", arr(sizes))])
}

fn price_doc(regions: Vec<(&str, Vec<Json>)>) -> Json {
    let rs = regions
        .into_iter()
        .map(|(name, types)| obj(vec![("region", st(name)), ("instanceTypes", arr(types))]))
        .collect();
    obj(vec![("config", obj(vec![("regions", arr(rs))]))])
}

fn scenario_docs() -> (Json, Json) {
    let advisor = obj(vec![
        (
            "spot_advisor",
            obj(vec![(
                "us-east-1",
                obj(vec![("Linux", obj(vec![("m5.large", rates(2, 30))]))]),
            )]),
        ),
        (
            "instance_types",
            obj(vec![("m5.large", obj(vec![("cores", num(2)), ("ram_gb", num(8))]))]),
        ),
    ]);
    let price = price_doc(vec![(
        "us-east-1",
        vec![type_entry(
            "generalCurrentGen.m5",
            vec![size_entry("large", vec![column("linux", "0.0456")])],
        )],
    )]);
    (advisor, price)
}

fn record(instance_type: &str, region: &str) -> MergedRecord {
    MergedRecord {
        instance_type: instance_type.to_string(),
        region: region.to_string(),
        bucket: None,
        savings_pct: None,
        memory_gb: None,
        cores: None,
        linux_price: None,
        windows_price: None,
    }
}

fn names(v: &[MergedRecord]) -> Vec<String> {
    v.iter().map(|r| r.instance_type.clone()).collect()
}

fn sorted_debug(v: &[MergedRecord]) -> Vec<String> {
    let mut out: Vec<String> = v.iter().map(|r| format!("{:?}", r)).collect();
    out.sort();
    out
}

#[test]
fn end_to_end_single_row() {
    let (advisor, price) = scenario_docs();
    let rows = spot_rows("us-east-1", None, &advisor, &price, true).unwrap();
    assert_eq!(
        rows,
        vec![vec!["m5.large", "us-east-1", "10-15%", "8", "2", "0.0456", "N/A", "30%"]]
    );
}

#[test]
fn end_to_end_without_prices() {
    let (advisor, price) = scenario_docs();
    let rows = spot_rows("us-east-1", None, &advisor, &price, false).unwrap();
    assert_eq!(rows, vec![vec!["m5.large", "us-east-1", "10-15%", "8", "2", "30%"]]);
}

#[test]
fn unknown_region_gives_no_rows() {
    let (advisor, price) = scenario_docs();
    let rows = spot_rows("eu-west-1", None, &advisor, &price, true).unwrap();
    assert!(rows.is_empty());
}

#[test]
fn missing_advisor_table_is_an_error() {
    let (_, price) = scenario_docs();
    let advisor = obj(vec![("instance_types", obj(vec![]))]);
    assert_eq!(
        spot_rows("us-east-1", None, &advisor, &price, true).unwrap_err(),
        DocumentError::MissingAdvisorTable
    );
    let advisor = obj(vec![("spot_advisor", arr(vec![]))]);
    assert_eq!(advisor_records(&advisor).unwrap_err(), DocumentError::MissingAdvisorTable);
}

#[test]
fn missing_price_regions_is_an_error() {
    let (advisor, _) = scenario_docs();
    let price = obj(vec![("config", obj(vec![]))]);
    assert_eq!(
        spot_rows("us-east-1", None, &advisor, &price, true).unwrap_err(),
        DocumentError::MissingPriceRegions
    );
    assert_eq!(price_records(&obj(vec![])).unwrap_err(), DocumentError::MissingPriceRegions);
}

#[test]
fn spec_index_tolerates_missing_figures() {
    let advisor = obj(vec![(
        "instance_types",
        obj(vec![
            ("a1.large", obj(vec![("cores", num(2))])),
            ("b1.large", obj(vec![("cores", st("two")), ("ram_gb", fractional("15.25"))])),
            ("c1.large", num(3)),
        ]),
    )]);
    let specs = build_spec_index(&advisor);
    assert_eq!(specs.len(), 2);
    assert_eq!(lookup_spec(&specs, &"a1.large".to_string()), (None, Some(2)));
    assert_eq!(lookup_spec(&specs, &"b1.large".to_string()), (Some("15.25".to_string()), None));
    assert_eq!(lookup_spec(&specs, &"c1.large".to_string()), (None, None));
    assert!(build_spec_index(&obj(vec![])).is_empty());
}

#[test]
fn advisor_reads_linux_only_and_skips_malformed() {
    let advisor = obj(vec![(
        "spot_advisor",
        obj(vec![
            (
                "us-east-1",
                obj(vec![
                    ("Linux", obj(vec![("m5.large", rates(1, 40)), ("bad", num(1)), ("t3.micro", obj(vec![]))])),
                    ("Windows", obj(vec![("c5.large", rates(3, 10))])),
                ]),
            ),
            ("eu-west-1", obj(vec![("Windows", obj(vec![("m5.large", rates(0, 5))]))])),
            ("broken", num(7)),
            ("us-west-2", obj(vec![("Linux", obj(vec![("m5.large", obj(vec![("r", num(9)), ("s", st("x"))]))]))])),
        ]),
    )]);
    let recs = advisor_records(&advisor).unwrap();
    assert_eq!(recs.len(), 3);
    assert_eq!(recs[0].instance_type, "m5.large");
    assert_eq!(recs[0].bucket, InterruptionBucket::FiveToTen);
    assert_eq!(recs[0].savings_pct, 40);
    assert_eq!(recs[1].instance_type, "t3.micro");
    assert_eq!(recs[1].bucket, InterruptionBucket::UnderFive);
    assert_eq!(recs[1].savings_pct, 0);
    assert_eq!(recs[2].region, "us-west-2");
    assert_eq!(recs[2].bucket, InterruptionBucket::OverTwenty);
    assert_eq!(recs[2].savings_pct, 0);
}

#[test]
fn price_columns_are_matched_exactly() {
    let price = price_doc(vec![(
        "us-east-1",
        vec![
            type_entry(
                "generalCurrentGen.m5",
                vec![
                    size_entry("large", vec![column("Linux", "9"), column("mswin", "0.19"), column("linux", "0.05")]),
                    obj(vec![("valueColumns", arr(vec![]))]),
                    size_entry("xlarge", vec![column("linuxish", "1")]),
                ],
            ),
            obj(vec![("type", st("c5"))]),
        ],
    )]);
    let recs = price_records(&price).unwrap();
    assert_eq!(recs.len(), 2);
    assert_eq!(recs[0].instance_type, "m5.large");
    assert_eq!(recs[0].region, "us-east-1");
    assert_eq!(recs[0].linux_price, Some("0.05".to_string()));
    assert_eq!(recs[0].windows_price, Some("0.19".to_string()));
    assert_eq!(recs[1].instance_type, "m5.xlarge");
    assert_eq!(recs[1].linux_price, None);
    assert_eq!(recs[1].windows_price, None);
}

#[test]
fn price_only_and_advisor_only_records() {
    let advisor = obj(vec![(
        "spot_advisor",
        obj(vec![("us-east-1", obj(vec![("Linux", obj(vec![("c5.large", rates(4, 70))]))]))]),
    )]);
    let price = price_doc(vec![(
        "us-east-1",
        vec![type_entry("t3", vec![size_entry("micro", vec![column("mswin", "0.01")])])],
    )]);
    let rows = spot_rows("us-east-1", None, &advisor, &price, true).unwrap();
    assert_eq!(
        rows,
        vec![
            vec!["c5.large", "us-east-1", ">20%", "N/A", "N/A", "N/A", "N/A", "70%"],
            vec!["t3.micro", "us-east-1", "N/A", "N/A", "N/A", "N/A", "0.01", "N/A"],
        ]
    );
}

#[test]
fn merge_order_does_not_matter() {
    let (advisor, price) = scenario_docs();
    let specs = build_spec_index(&advisor);
    let advs = advisor_records(&advisor).unwrap();
    let mut prices = price_records(&price).unwrap();
    let extra = price_doc(vec![(
        "eu-west-1",
        vec![type_entry("m5", vec![size_entry("large", vec![column("linux", "0.07")])])],
    )]);
    prices.extend(price_records(&extra).unwrap());

    let mut advisor_first: Vec<MergedRecord> = Vec::new();
    apply_advisor_records(&mut advisor_first, &specs, &advs);
    apply_price_records(&mut advisor_first, &prices);

    let mut price_first: Vec<MergedRecord> = Vec::new();
    apply_price_records(&mut price_first, &prices);
    apply_advisor_records(&mut price_first, &specs, &advs);

    assert_eq!(advisor_first.len(), 2);
    assert_eq!(sorted_debug(&advisor_first), sorted_debug(&price_first));
    assert_eq!(
        sorted_debug(&merge_records(&specs, &advs, &prices)),
        sorted_debug(&advisor_first)
    );
    let joined = advisor_first.iter().find(|r| r.region == "us-east-1").unwrap();
    assert_eq!(joined.bucket, Some(InterruptionBucket::TenToFifteen));
    assert_eq!(joined.linux_price, Some("0.0456".to_string()));
    assert_eq!(joined.memory_gb, Some("8".to_string()));
}

#[test]
fn filter_by_family_and_size() {
    let merged = vec![
        record("m5.large", "us-east-1"),
        record("m5.xlarge", "us-east-1"),
        record("c5.large", "us-east-1"),
    ];
    assert_eq!(
        names(&select_records(&merged, "us-east-1", Some("m5"))),
        vec!["m5.large", "m5.xlarge"]
    );
    assert_eq!(
        names(&select_records(&merged, "us-east-1", Some("large"))),
        vec!["c5.large", "m5.large", "m5.xlarge"]
    );
    assert_eq!(
        names(&select_records(&merged, "us-east-1", Some("5.la"))),
        vec!["c5.large", "m5.large"]
    );
    assert!(select_records(&merged, "us-east-1", Some("t3")).is_empty());
}

#[test]
fn selection_is_sorted_whatever_the_input_order() {
    let merged = vec![
        record("m5.xlarge", "us-east-1"),
        record("c5.large", "us-east-1"),
        record("m5.large", "eu-west-1"),
        record("m5.large", "us-east-1"),
    ];
    assert_eq!(
        names(&select_records(&merged, "us-east-1", None)),
        vec!["c5.large", "m5.large", "m5.xlarge"]
    );
    let reversed: Vec<MergedRecord> = merged.into_iter().rev().collect();
    assert_eq!(
        names(&select_records(&reversed, "us-east-1", None)),
        vec!["c5.large", "m5.large", "m5.xlarge"]
    );
    assert!(select_records(&reversed, "ap-south-1", None).is_empty());
}

#[test]
fn info_and_row_cells() {
    let mut r = record("m5.large", "us-east-1");
    r.bucket = Some(InterruptionBucket::UnderFive);
    r.savings_pct = Some(0);
    r.cores = Some(96);
    r.memory_gb = Some("0.5".to_string());
    let info = InstanceInfo::from_record(&r);
    assert_eq!(info.interruption_rate, "<5%");
    assert_eq!(info.savings, "0%");
    assert_eq!(info.cores, "96");
    assert_eq!(info.memory_gb, "0.5");
    assert_eq!(info.linux_spot_price, "N/A");
    let cells = row_cells(&r.instance_type, "us-east-1", &info, false);
    assert_eq!(cells, vec!["m5.large", "us-east-1", "<5%", "0.5", "96", "0%"]);
}

#[test]
fn absent_price_never_resets_a_present_one() {
    let (advisor, _) = scenario_docs();
    let with_price = type_entry("a.m5", vec![size_entry("large", vec![column("linux", "0.05")])]);
    let without_price = type_entry("b.m5", vec![size_entry("large", vec![])]);
    let first = price_doc(vec![("us-east-1", vec![with_price, without_price])]);
    let with_price = type_entry("a.m5", vec![size_entry("large", vec![column("linux", "0.05")])]);
    let without_price = type_entry("b.m5", vec![size_entry("large", vec![])]);
    let second = price_doc(vec![("us-east-1", vec![without_price, with_price])]);
    let expected = vec![vec!["m5.large", "us-east-1", "10-15%", "8", "2", "0.05", "N/A", "30%"]];
    assert_eq!(spot_rows("us-east-1", None, &advisor, &first, true).unwrap(), expected);
    assert_eq!(spot_rows("us-east-1", None, &advisor, &second, true).unwrap(), expected);
}

#[test]
fn later_price_fills_only_absent_fields() {
    let price = price_doc(vec![(
        "us-east-1",
        vec![
            type_entry("a.m5", vec![size_entry("large", vec![column("linux", "0.05")])]),
            type_entry(
                "b.m5",
                vec![size_entry("large", vec![column("linux", "0.09"), column("mswin", "0.20")])],
            ),
        ],
    )]);
    let prices = price_records(&price).unwrap();
    let mut merged: Vec<MergedRecord> = Vec::new();
    apply_price_records(&mut merged, &prices);
    assert_eq!(merged.len(), 1);
    assert_eq!(merged[0].linux_price, Some("0.05".to_string()));
    assert_eq!(merged[0].windows_price, Some("0.20".to_string()));
}

#[test]
fn rendered_rows_carry_bucket_labels() {
    let advisor = obj(vec![(
        "spot_advisor",
        obj(vec![(
            "us-east-1",
            obj(vec![(
                "Linux",
                obj(vec![
                    ("a0.large", rates(0, 1)),
                    ("a1.large", rates(1, 2)),
                    ("a2.large", rates(2, 3)),
                    ("a3.large", rates(3, 4)),
                    ("a4.large", rates(4, 5)),
                    ("a9.large", rates(9, 6)),
                ]),
            )]),
        )]),
    )]);
    let price = price_doc(vec![]);
    let rows = spot_rows("us-east-1", None, &advisor, &price, false).unwrap();
    let labels: Vec<&str> = rows.iter().map(|r| r[2].as_str()).collect();
    assert_eq!(labels, vec!["<5%", "5-10%", "10-15%", "15-20%", ">20%", ">20%"]);
    let savings: Vec<&str> = rows.iter().map(|r| r[5].as_str()).collect();
    assert_eq!(savings, vec!["1%", "2%", "3%", "4%", "5%", "6%"]);
}
