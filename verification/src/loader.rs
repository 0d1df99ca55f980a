//! The loader: resolves the header row to column positions, then turns each
//! data row into a normalized record, aborting on the first bad row.

use vstd::prelude::*;
use vstd::string::StringExecFns;

use crate::model::EntryModel;
use crate::model::Field;
use crate::model::LoadError;
use crate::model::LoadErrorModel;
use crate::model::StudyEntry;
use crate::normalize::normalize_header;
use crate::normalize::normalize_role;
use crate::normalize::normalized_header;
use crate::normalize::normalized_role;
use crate::normalize::parse_type;
use crate::normalize::parsed_type;
use crate::text::trim;
use crate::text::trim_str;

verus! {

/// What the csv crate parses the given bytes into: the records in order,
/// each a sequence of fields; or the 0-based index of the first record that
/// cannot be read. A pure function of the bytes alone.
pub uninterp spec fn csv_table(bytes: Seq<u8>) -> Result<Seq<Seq<Seq<char>>>, int>;

/// Relies on csv::Reader (flexible field counts, no implicit header row):
/// splits the bytes into records of string fields.
#[verifier::external_body]
fn read_csv_records(data: &[u8]) -> (r: Result<Vec<Vec<String>>, usize>)
    ensures
        match r {
            Ok(rows) => csv_table(data@) == Ok::<Seq<Seq<Seq<char>>>, int>(rows.deep_view()),
            Err(i) => csv_table(data@) == Err::<Seq<Seq<Seq<char>>>, int>(i as int),
        },
{
    let mut reader = csv::ReaderBuilder::new().has_headers(false).flexible(true).from_reader(
        data,
    );
    let mut rows: Vec<Vec<String>> = Vec::new();
    for (i, record) in reader.records().enumerate() {
        match record {
            Ok(rec) => rows.push(rec.iter().map(|f| f.to_string()).collect()),
            Err(_) => return Err(i),
        }
    }
    Ok(rows)
}

/// The field at a column position; a row too short to reach it reads as
/// empty.
pub open spec fn field_at(row: Seq<Seq<char>>, i: int) -> Seq<char> {
    if 0 <= i < row.len() {
        row[i]
    } else {
        Seq::empty()
    }
}

/// The column position of a logical key: the last header that normalizes to
/// it, as a later duplicate header overrides an earlier one.
pub open spec fn column_index(headers: Seq<Seq<char>>, key: Seq<char>) -> Option<int>
    decreases headers.len(),
{
    if headers.len() == 0 {
        None
    } else if normalized_header(headers.last()) == key {
        Some(headers.len() - 1)
    } else {
        column_index(headers.drop_last(), key)
    }
}

pub open spec fn opt_int(o: Option<usize>) -> Option<int> {
    match o {
        Some(i) => Some(i as int),
        None => None,
    }
}

/// How one data row parses, given the resolved column positions and its
/// 1-based row number.
pub open spec fn parsed_row(
    row: Seq<Seq<char>>,
    name_i: int,
    type_i: int,
    func_i: int,
    role_i: Option<int>,
    rownum: int,
) -> Result<EntryModel, LoadErrorModel> {
    let name = trim(field_at(row, name_i));
    if name.len() == 0 {
        Result::Err(LoadErrorModel::MissingField { row: rownum, field: Field::Name })
    } else {
        match parsed_type(field_at(row, type_i), rownum) {
            Result::Err(e) => Result::Err(e),
            Result::Ok(ty) => {
                let func = trim(field_at(row, func_i));
                if func.len() == 0 {
                    Result::Err(
                        LoadErrorModel::MissingField { row: rownum, field: Field::Function },
                    )
                } else {
                    let role = match role_i {
                        Some(ri) => normalized_role(field_at(row, ri)),
                        None => Seq::empty(),
                    };
                    Result::Ok(
                        EntryModel {
                            name,
                            type_value: ty,
                            function: func,
                            role_in_swallowing: role,
                            order: rownum,
                        },
                    )
                }
            },
        }
    }
}

/// How a run of data rows parses: in order, stopping at the first error.
pub open spec fn loaded_rows_from(
    rows: Seq<Seq<Seq<char>>>,
    name_i: int,
    type_i: int,
    func_i: int,
    role_i: Option<int>,
    rownum: int,
) -> Result<Seq<EntryModel>, LoadErrorModel>
    decreases rows.len(),
{
    if rows.len() == 0 {
        Result::Ok(Seq::empty())
    } else {
        match parsed_row(rows[0], name_i, type_i, func_i, role_i, rownum) {
            Result::Err(e) => Result::Err(e),
            Result::Ok(entry) => match loaded_rows_from(
                rows.drop_first(),
                name_i,
                type_i,
                func_i,
                role_i,
                rownum + 1,
            ) {
                Result::Err(e) => Result::Err(e),
                Result::Ok(rest) => Result::Ok(seq![entry] + rest),
            },
        }
    }
}

/// How a whole parsed table loads: the first record is the header row, the
/// three required columns must resolve, and the data rows follow in order.
pub open spec fn loaded_table(rows: Seq<Seq<Seq<char>>>) -> Result<
    Seq<EntryModel>,
    LoadErrorModel,
> {
    let headers = if rows.len() == 0 {
        Seq::<Seq<char>>::empty()
    } else {
        rows[0]
    };
    let data = if rows.len() == 0 {
        Seq::<Seq<Seq<char>>>::empty()
    } else {
        rows.drop_first()
    };
    match column_index(headers, "name"@) {
        None => Result::Err(LoadErrorModel::MissingColumn { column: Field::Name }),
        Some(name_i) => match column_index(headers, "type"@) {
            None => Result::Err(LoadErrorModel::MissingColumn { column: Field::Type }),
            Some(type_i) => match column_index(headers, "function"@) {
                None => Result::Err(
                    LoadErrorModel::MissingColumn { column: Field::Function },
                ),
                Some(func_i) => loaded_rows_from(
                    data,
                    name_i,
                    type_i,
                    func_i,
                    column_index(headers, "roleinswallowing"@),
                    1,
                ),
            },
        },
    }
}

/// No header resolves to the key: there is no such column.
pub proof fn lemma_column_index_none(headers: Seq<Seq<char>>, key: Seq<char>)
    requires
        forall|j: int| 0 <= j < headers.len() ==> normalized_header(#[trigger] headers[j]) != key,
    ensures
        column_index(headers, key) is None,
    decreases headers.len(),
{
    if headers.len() > 0 {
        lemma_column_index_none(headers.drop_last(), key);
    }
}

/// Law: a table whose header row has no column normalizing to "name" loads
/// to the missing-column error, whatever its data rows hold.
pub proof fn lemma_missing_name_column(rows: Seq<Seq<Seq<char>>>)
    requires
        rows.len() > 0,
        forall|j: int|
            0 <= j < rows[0].len() ==> normalized_header(#[trigger] rows[0][j]) != "name"@,
    ensures
        loaded_table(rows) == Result::<Seq<EntryModel>, LoadErrorModel>::Err(
            LoadErrorModel::MissingColumn { column: Field::Name },
        ),
{
    lemma_column_index_none(rows[0], "name"@);
}

fn field_of<'a>(row: &'a Vec<String>, i: usize) -> (r: &'a str)
    ensures
        r@ == field_at(row.deep_view(), i as int),
{
    if i < row.len() {
        row[i].as_str()
    } else {
        proof {
            reveal_strlit("");
            assert(""@ =~= Seq::<char>::empty());
        }
        ""
    }
}

fn find_column(headers: &Vec<String>, key: &str) -> (r: Option<usize>)
    ensures
        match r {
            Some(i) => i < headers@.len() && column_index(headers.deep_view(), key@) == Some(
                i as int,
            ),
            None => column_index(headers.deep_view(), key@) is None,
        },
{
    let keys = String::from_str(key);
    let ghost dv = headers.deep_view();
    proof {
        assert(dv.take(dv.len() as int) =~= dv);
    }
    let mut i: usize = headers.len();
    while i > 0
        invariant
            i <= headers@.len(),
            keys@ == key@,
            dv == headers.deep_view(),
            dv.len() == headers@.len(),
            column_index(dv, key@) == column_index(dv.take(i as int), key@),
        decreases i,
    {
        let nh = normalize_header(headers[i - 1].as_str());
        proof {
            assert(dv.take(i as int).last() == dv[i - 1]);
        }
        if nh == keys {
            return Some(i - 1);
        }
        proof {
            assert(dv.take(i as int).drop_last() =~= dv.take(i - 1));
        }
        i = i - 1;
    }
    proof {
        assert(dv.take(0) =~= Seq::<Seq<char>>::empty());
    }
    None
}

fn parse_row(
    row: &Vec<String>,
    name_i: usize,
    type_i: usize,
    func_i: usize,
    role_i: Option<usize>,
    rownum: usize,
) -> (r: Result<StudyEntry, LoadError>)
    ensures
        match r {
            Result::Ok(entry) => parsed_row(
                row.deep_view(),
                name_i as int,
                type_i as int,
                func_i as int,
                opt_int(role_i),
                rownum as int,
            ) == Result::<EntryModel, LoadErrorModel>::Ok(entry@),
            Result::Err(e) => parsed_row(
                row.deep_view(),
                name_i as int,
                type_i as int,
                func_i as int,
                opt_int(role_i),
                rownum as int,
            ) == Result::<EntryModel, LoadErrorModel>::Err(e@),
        },
{
    let name = trim_str(field_of(row, name_i));
    if name.as_str().is_empty() {
        return Result::Err(LoadError::MissingField { row: rownum, field: Field::Name });
    }
    let ty = match parse_type(field_of(row, type_i), rownum) {
        Result::Ok(t) => t,
        Result::Err(e) => {
            return Result::Err(e);
        },
    };
    let function = trim_str(field_of(row, func_i));
    if function.as_str().is_empty() {
        return Result::Err(LoadError::MissingField { row: rownum, field: Field::Function });
    }
    let role = match role_i {
        Some(ri) => normalize_role(field_of(row, ri)),
        None => String::new(),
    };
    Result::Ok(
        StudyEntry { name, type_value: ty, function, role_in_swallowing: role, order: rownum },
    )
}

/// Turns already-split records into normalized entries: the first record is
/// the header row, every later one a 1-based data row.
#[verifier::loop_isolation(false)]
pub fn load_entries_from_rows(rows: &Vec<Vec<String>>) -> (r: Result<Vec<StudyEntry>, LoadError>)
    ensures
        match r {
            Result::Ok(entries) => loaded_table(rows.deep_view()) == Result::<
                Seq<EntryModel>,
                LoadErrorModel,
            >::Ok(entries.deep_view()),
            Result::Err(e) => loaded_table(rows.deep_view()) == Result::<
                Seq<EntryModel>,
                LoadErrorModel,
            >::Err(e@),
        },
{
    let ghost all = rows.deep_view();
    if rows.len() == 0 {
        return Result::Err(LoadError::MissingColumn { column: Field::Name });
    }
    let headers = &rows[0];
    proof {
        assert(headers.deep_view() == all[0]);
    }
    let name_i = match find_column(headers, "name") {
        Some(i) => i,
        None => {
            return Result::Err(LoadError::MissingColumn { column: Field::Name });
        },
    };
    let type_i = match find_column(headers, "type") {
        Some(i) => i,
        None => {
            return Result::Err(LoadError::MissingColumn { column: Field::Type });
        },
    };
    let func_i = match find_column(headers, "function") {
        Some(i) => i,
        None => {
            return Result::Err(LoadError::MissingColumn { column: Field::Function });
        },
    };
    let role_i = find_column(headers, "roleinswallowing");
    let ghost nmi = name_i as int;
    let ghost tyi = type_i as int;
    let ghost fni = func_i as int;
    let ghost rli = opt_int(role_i);
    proof {
        assert(all.skip(1) =~= all.drop_first());
        assert(loaded_table(all) == loaded_rows_from(all.skip(1), nmi, tyi, fni, rli, 1));
    }
    let mut entries: Vec<StudyEntry> = Vec::new();
    let mut i: usize = 1;
    proof {
        assert(entries.deep_view() + loaded_rows_from(all.skip(1), nmi, tyi, fni, rli, 1)
            ->Ok_0 =~= loaded_rows_from(all.skip(1), nmi, tyi, fni, rli, 1)->Ok_0);
    }
    while i < rows.len()
        invariant
            1 <= i <= rows@.len(),
            all == rows.deep_view(),
            all.len() == rows@.len(),
            loaded_table(all) == loaded_rows_from(all.skip(1), nmi, tyi, fni, rli, 1),
            loaded_rows_from(all.skip(1), nmi, tyi, fni, rli, 1) == match loaded_rows_from(
                all.skip(i as int),
                nmi,
                tyi,
                fni,
                rli,
                i as int,
            ) {
                Result::Ok(rest) => Result::<Seq<EntryModel>, LoadErrorModel>::Ok(
                    entries.deep_view() + rest,
                ),
                Result::Err(e) => Result::<Seq<EntryModel>, LoadErrorModel>::Err(e),
            },
        decreases rows@.len() - i,
    {
        let ghost pre = loaded_rows_from(all.skip(i as int), nmi, tyi, fni, rli, i as int);
        proof {
            assert(all.skip(i as int).len() == all.len() - i);
            assert(all.skip(i as int)[0] == all[i as int]);
            assert(all[i as int] == rows@[i as int].deep_view());
        }
        match parse_row(&rows[i], name_i, type_i, func_i, role_i, i) {
            Result::Err(e) => {
                proof {
                    assert(parsed_row(all.skip(i as int)[0], nmi, tyi, fni, rli, i as int)
                        == Result::<EntryModel, LoadErrorModel>::Err(e@));
                    assert(pre == Result::<Seq<EntryModel>, LoadErrorModel>::Err(e@));
                }
                return Result::Err(e);
            },
            Result::Ok(entry) => {
                let ghost prev = entries.deep_view();
                let ghost em = entry@;
                entries.push(entry);
                proof {
                    let post = loaded_rows_from(all.skip(i + 1), nmi, tyi, fni, rli, i + 1);
                    assert(parsed_row(all.skip(i as int)[0], nmi, tyi, fni, rli, i as int)
                        == Result::<EntryModel, LoadErrorModel>::Ok(em));
                    assert(all.skip(i as int).drop_first() =~= all.skip(i + 1));
                    assert(pre == match post {
                        Result::Ok(rest) => Result::<Seq<EntryModel>, LoadErrorModel>::Ok(
                            seq![em] + rest,
                        ),
                        Result::Err(e) => Result::<Seq<EntryModel>, LoadErrorModel>::Err(e),
                    });
                    assert(entries.deep_view() =~= prev.push(em));
                    match post {
                        Result::Ok(rest) => {
                            assert(prev + (seq![em] + rest) =~= prev.push(em) + rest);
                        },
                        Result::Err(_) => {},
                    }
                }
            },
        }
        i = i + 1;
    }
    proof {
        assert(all.skip(i as int) =~= Seq::<Seq<Seq<char>>>::empty());
        assert(entries.deep_view() + Seq::<EntryModel>::empty() =~= entries.deep_view());
    }
    Result::Ok(entries)
}

/// Loads entries from the raw bytes of a delimited tabular file with a
/// header row. Column order does not matter and unknown columns are
/// ignored; a record that cannot be read, a missing required column, or a
/// bad field aborts the load with the matching error.
pub fn load_entries_from_reader(data: &[u8]) -> (r: Result<Vec<StudyEntry>, LoadError>)
    ensures
        match r {
            Result::Ok(entries) => csv_table(data@) matches Ok(rows) && loaded_table(rows)
                == Result::<Seq<EntryModel>, LoadErrorModel>::Ok(entries.deep_view()),
            Result::Err(e) => match csv_table(data@) {
                Result::Err(i) => e@ == (LoadErrorModel::Read { row: i }),
                Result::Ok(rows) => loaded_table(rows) == Result::<
                    Seq<EntryModel>,
                    LoadErrorModel,
                >::Err(e@),
            },
        },
{
    match read_csv_records(data) {
        Result::Err(i) => Result::Err(LoadError::Read { row: i }),
        Result::Ok(rows) => load_entries_from_rows(&rows),
    }
}

} // verus!
