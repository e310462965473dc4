//! The price document: unwrapping its script wrapper and reading one record
//! per region, instance type and size.
use vstd::prelude::*;
use crate::json::Json;
use crate::records::{price_views, DocumentError, PriceRecord, PriceView};
use crate::text::{normalize, normalized, same_text};

verus! {

/// The USD price of a value column named exactly `os`, when it is a string.
pub open spec fn column_price(col: Json, os: Seq<char>) -> Option<Seq<char>> {
    match col.field("name"@) {
        Some(n) => if n.text() == Some(os) {
            match col.field("prices"@) {
                Some(p) => match p.field("USD"@) {
                    Some(u) => u.text(),
                    None => None,
                },
                None => None,
            }
        } else {
            None
        },
        None => None,
    }
}

/// The price for `os` among the value columns; a later column wins.
pub open spec fn os_price(cols: Seq<Json>, os: Seq<char>) -> Option<Seq<char>>
    decreases cols.len(),
{
    if cols.len() == 0 {
        None
    } else if column_price(cols.last(), os) is Some {
        column_price(cols.last(), os)
    } else {
        os_price(cols.drop_last(), os)
    }
}

/// The identifier that a price entry writes as type and size.
pub open spec fn composite(category: Seq<char>, size: Seq<char>) -> Seq<char> {
    category + seq!['.'] + size
}

/// The value columns of a size entry; none when they are missing.
pub open spec fn columns_of(z: Json) -> Seq<Json> {
    match z.field("valueColumns"@) {
        Some(Json::Array(c)) => c@,
        _ => Seq::empty(),
    }
}

/// The record of one size entry labelled `size`.
pub open spec fn size_entry(region: Seq<char>, category: Seq<char>, size: Seq<char>, z: Json) -> PriceView {
    PriceView {
        instance_type: normalized(composite(category, size)),
        region,
        linux_price: os_price(columns_of(z), "linux"@),
        windows_price: os_price(columns_of(z), "mswin"@),
    }
}

/// The records of a type's size entries, skipping those without a size label.
pub open spec fn size_records(region: Seq<char>, category: Seq<char>, sizes: Seq<Json>) -> Seq<PriceView>
    decreases sizes.len(),
{
    if sizes.len() == 0 {
        Seq::empty()
    } else {
        let prev = size_records(region, category, sizes.drop_last());
        match sizes.last().field("size"@) {
            Some(Json::Str(sz)) => prev.push(size_entry(region, category, sz@, sizes.last())),
            _ => prev,
        }
    }
}

/// The records of a region's type entries, skipping those without a type
/// label or a sizes array.
pub open spec fn type_records(region: Seq<char>, types: Seq<Json>) -> Seq<PriceView>
    decreases types.len(),
{
    if types.len() == 0 {
        Seq::empty()
    } else {
        let prev = type_records(region, types.drop_last());
        match (types.last().field("type"@), types.last().field("sizes"@)) {
            (Some(Json::Str(t)), Some(Json::Array(s))) => prev + size_records(region, t@, s@),
            _ => prev,
        }
    }
}

/// The records of every region entry, skipping those without a region name
/// or an instance-type array.
pub open spec fn region_price_records(regions: Seq<Json>) -> Seq<PriceView>
    decreases regions.len(),
{
    if regions.len() == 0 {
        Seq::empty()
    } else {
        let prev = region_price_records(regions.drop_last());
        match (regions.last().field("region"@), regions.last().field("instanceTypes"@)) {
            (Some(Json::Str(n)), Some(Json::Array(ts))) => prev + type_records(n@, ts@),
            _ => prev,
        }
    }
}

/// The price records of a document, or nothing when it has no `config.regions` array.
pub open spec fn price_records_of(doc: Json) -> Option<Seq<PriceView>> {
    match doc.field("config"@) {
        Some(c) => match c.field("regions"@) {
            Some(Json::Array(r)) => Some(region_price_records(r@)),
            _ => None,
        },
        None => None,
    }
}

/// Reads the USD price of a value column named exactly `os`.
pub fn column_price_of(col: &Json, os: &str) -> (r: Option<String>)
    ensures
        crate::records::opt_text(r) == column_price(*col, os@),
{
    match col.get("name") {
        Some(n) => match n.as_text() {
            Some(t) => {
                if same_text(t.as_str(), os) {
                    match col.get("prices") {
                        Some(p) => match p.get("USD") {
                            Some(u) => match u.as_text() {
                                Some(s) => Some(s.clone()),
                                None => None,
                            },
                            None => None,
                        },
                        None => None,
                    }
                } else {
                    None
                }
            },
            None => None,
        },
        None => None,
    }
}

/// Reads the price for `os` from value columns; a later column wins.
pub fn os_price_of(cols: &Vec<Json>, os: &str) -> (r: Option<String>)
    ensures
        crate::records::opt_text(r) == os_price(cols@, os@),
{
    let mut i: usize = cols.len();
    assert(cols@.take(i as int) =~= cols@);
    while i > 0
        invariant
            i <= cols@.len(),
            os_price(cols@, os@) == os_price(cols@.take(i as int), os@),
        decreases i,
    {
        assert(cols@.take(i as int).drop_last() =~= cols@.take(i as int - 1));
        let p = column_price_of(&cols[i - 1], os);
        if p.is_some() {
            return p;
        }
        i = i - 1;
    }
    None
}

/// Builds the record of one size entry labelled `size`.
fn size_record(region: &String, category: &String, size: &String, z: &Json) -> (r: PriceRecord)
    ensures
        r@ == size_entry(region@, category@, size@, *z),
{
    let mut c = category.clone();
    c.append(".");
    c.append(size.as_str());
    proof {
        reveal_strlit(".");
    }
    assert(c@ =~= composite(category@, size@));
    let instance_type = normalize(c.as_str());
    let (linux_price, windows_price) = match z.get("valueColumns") {
        Some(Json::Array(cols)) => (os_price_of(cols, "linux"), os_price_of(cols, "mswin")),
        _ => (None, None),
    };
    PriceRecord { instance_type, region: region.clone(), linux_price, windows_price }
}

fn size_records_into(region: &String, category: &String, sizes: &Vec<Json>, out: &mut Vec<PriceRecord>)
    ensures
        price_views(final(out)@) == price_views(old(out)@) + size_records(region@, category@, sizes@),
{
    let ghost start = price_views(out@);
    let mut i: usize = 0;
    assert(start =~= start + size_records(region@, category@, sizes@.take(0)));
    while i < sizes.len()
        invariant
            i <= sizes@.len(),
            price_views(out@) == start + size_records(region@, category@, sizes@.take(i as int)),
        decreases sizes@.len() - i,
    {
        assert(sizes@.take(i as int + 1).drop_last() =~= sizes@.take(i as int));
        match sizes[i].get("size") {
            Some(Json::Str(sz)) => {
                let rec = size_record(region, category, sz, &sizes[i]);
                let ghost before = out@;
                out.push(rec);
                assert(price_views(out@) =~= price_views(before).push(rec@));
            },
            _ => {},
        }
        i = i + 1;
    }
    assert(sizes@.take(sizes@.len() as int) =~= sizes@);
}

fn type_records_into(region: &String, types: &Vec<Json>, out: &mut Vec<PriceRecord>)
    ensures
        price_views(final(out)@) == price_views(old(out)@) + type_records(region@, types@),
{
    let ghost start = price_views(out@);
    let mut i: usize = 0;
    assert(start =~= start + type_records(region@, types@.take(0)));
    while i < types.len()
        invariant
            i <= types@.len(),
            price_views(out@) == start + type_records(region@, types@.take(i as int)),
        decreases types@.len() - i,
    {
        assert(types@.take(i as int + 1).drop_last() =~= types@.take(i as int));
        match (types[i].get("type"), types[i].get("sizes")) {
            (Some(Json::Str(t)), Some(Json::Array(s))) => {
                size_records_into(region, t, s, out);
                assert(price_views(out@) =~= start + type_records(region@, types@.take(i as int + 1)));
            },
            _ => {},
        }
        i = i + 1;
    }
    assert(types@.take(types@.len() as int) =~= types@);
}

/// Reads one record per region, instance type and size from the price document.
pub fn price_records(price_doc: &Json) -> (r: Result<Vec<PriceRecord>, DocumentError>)
    ensures
        match price_records_of(*price_doc) {
            Some(s) => r matches Ok(v) && price_views(v@) == s,
            None => r == Err::<Vec<PriceRecord>, DocumentError>(DocumentError::MissingPriceRegions),
        },
{
    let regions = match price_doc.get("config") {
        Some(c) => match c.get("regions") {
            Some(Json::Array(r)) => r,
            _ => {
                return Err(DocumentError::MissingPriceRegions);
            },
        },
        None => {
            return Err(DocumentError::MissingPriceRegions);
        },
    };
    let mut out: Vec<PriceRecord> = Vec::new();
    let mut i: usize = 0;
    assert(price_views(out@) =~= region_price_records(regions@.take(0)));
    while i < regions.len()
        invariant
            i <= regions@.len(),
            price_views(out@) == region_price_records(regions@.take(i as int)),
        decreases regions@.len() - i,
    {
        assert(regions@.take(i as int + 1).drop_last() =~= regions@.take(i as int));
        match (regions[i].get("region"), regions[i].get("instanceTypes")) {
            (Some(Json::Str(n)), Some(Json::Array(ts))) => {
                type_records_into(n, ts, &mut out);
            },
            _ => {},
        }
        i = i + 1;
    }
    assert(regions@.take(regions@.len() as int) =~= regions@);
    Ok(out)
}

/// The first position at or after `i` where `p` occurs in `s`, or -1.
pub open spec fn first_occurrence(s: Seq<char>, p: Seq<char>, i: int) -> int
    decreases s.len() + 1 - i,
{
    if i < 0 || i + p.len() > s.len() {
        -1
    } else if s.subrange(i, i + p.len()) == p {
        i
    } else {
        first_occurrence(s, p, i + 1)
    }
}

/// The position of the last `c` strictly before `end`, or -1.
pub open spec fn last_char_before(s: Seq<char>, c: char, end: int) -> int
    decreases end,
{
    if end <= 0 {
        -1
    } else if s[end - 1] == c {
        end - 1
    } else {
        last_char_before(s, c, end - 1)
    }
}

/// The JSON text inside a script wrapper `callback(...)`: from the first `{`
/// after the first `callback(` (after the start of the text when there is no
/// `callback(`) up to and including the last `}`. The `)` that closes the
/// wrapper lies past that `}` and is left out. Nothing when either brace is
/// missing or the last `}` comes before that `{`.
pub open spec fn callback_payload(s: Seq<char>) -> Option<Seq<char>> {
    let cb = first_occurrence(s, "callback("@, 0);
    let from = if cb >= 0 {
        cb + "callback("@.len()
    } else {
        0
    };
    let start = first_occurrence(s, seq!['{'], from);
    let end = last_char_before(s, '}', s.len() as int);
    if start < 0 || end < start {
        None
    } else {
        Some(s.subrange(start, end + 1))
    }
}

fn find_text(s: &str, p: &str, from: usize) -> (r: Option<usize>)
    requires
        from <= s@.len(),
    ensures
        r matches Some(i) ==> i as int == first_occurrence(s@, p@, from as int) && i + p@.len() <= s@.len(),
        r is None ==> first_occurrence(s@, p@, from as int) == -1,
{
    let n = s.unicode_len();
    let m = p.unicode_len();
    if m > n - from {
        return None;
    }
    let mut i: usize = from;
    loop
        invariant
            m <= n,
            n == s@.len(),
            m == p@.len(),
            i <= n - m,
            first_occurrence(s@, p@, from as int) == first_occurrence(s@, p@, i as int),
        decreases n - m - i,
    {
        if same_text(s.substring_char(i, i + m), p) {
            return Some(i);
        }
        if i == n - m {
            assert(first_occurrence(s@, p@, i as int + 1) == -1);
            return None;
        }
        i = i + 1;
    }
}

fn rfind_char(s: &str, c: char, n: usize) -> (r: Option<usize>)
    requires
        n == s@.len(),
    ensures
        r matches Some(i) ==> i as int == last_char_before(s@, c, n as int) && i < n,
        r is None ==> last_char_before(s@, c, n as int) == -1,
{
    let mut i: usize = n;
    while i > 0
        invariant
            i <= n == s@.len(),
            last_char_before(s@, c, n as int) == last_char_before(s@, c, i as int),
        decreases i,
    {
        if s.get_char(i - 1) == c {
            return Some(i - 1);
        }
        i = i - 1;
    }
    None
}

/// Takes the JSON text out of the price document's script wrapper.
pub fn extract_callback_json(text: &str) -> (r: Option<String>)
    ensures
        crate::records::opt_text(r) == callback_payload(text@),
{
    let n = text.unicode_len();
    let prefix = "callback(";
    let from: usize = match find_text(text, prefix, 0) {
        Some(i) => i + prefix.unicode_len(),
        None => 0,
    };
    proof {
        reveal_strlit("{");
    }
    assert("{"@ =~= seq!['{']);
    let start = match find_text(text, "{", from) {
        Some(b) => b,
        None => {
            return None;
        },
    };
    match rfind_char(text, '}', n) {
        None => None,
        Some(end) => {
            if end < start {
                None
            } else {
                Some(String::from_str(text.substring_char(start, end + 1)))
            }
        },
    }
}

} // verus!
