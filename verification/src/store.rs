//! The persisted representation of the record store: the mapping and the
//! progress log are kept as comma-separated tabular data, the library and
//! mapping files with a header row, the progress file without one.
//!
//! Encoding and parsing are taken from the csv crate; both are functions of
//! their input alone and are given the names `csv_line_of` and
//! `csv_rows_of`. Everything around them — header handling, field counts,
//! row conversion — is verified.

use vstd::prelude::*;
use vstd::string::StringExecFns;

use crate::record::LibRec;
use crate::record::LibRecV;
use crate::record::MapRec;
use crate::record::MapRecV;

verus! {

/// The bytes of one encoded tabular line (terminator included) for a row of
/// fields, as the csv crate writes it.
pub uninterp spec fn csv_row_of(fields: Seq<Seq<char>>) -> Seq<u8>;

/// The rows of string fields that the csv crate parses out of `b`, or
/// `None` where it reports the bytes malformed.
pub uninterp spec fn csv_rows_of(b: Seq<u8>) -> Option<Seq<Seq<Seq<char>>>>;

/// The external-crate error type returned by a failed parse.
#[verifier::external_type_specification]
#[verifier::external_body]
pub struct ExCsvError(csv::Error);

/// Relies on `csv::Writer::write_record` (csv 1.4) over an in-memory
/// buffer: one escaped, terminated line for the given fields, a function of
/// the fields alone. Writing to a vector cannot fail.
#[verifier::external_body]
fn csv_row(fields: &Vec<String>) -> (r: Vec<u8>)
    ensures
        r@ == csv_row_of(fields@.map_values(|f: String| f@)),
{
    let mut w = csv::WriterBuilder::new().has_headers(false).flexible(true).from_writer(
        Vec::new(),
    );
    w.write_record(fields).expect("writing to a vector cannot fail");
    w.into_inner().expect("writing to a vector cannot fail")
}

/// Relies on `csv::Reader` (csv 1.4) over an in-memory buffer, headers off
/// and flexible field counts: every row of string fields, or the crate's
/// error where the bytes are malformed; a function of the bytes alone.
#[verifier::external_body]
fn csv_rows(bytes: &[u8]) -> (r: Result<Vec<Vec<String>>, csv::Error>)
    ensures
        match r {
            Ok(rows) => csv_rows_of(bytes@) == Some(
                rows@.map_values(|row: Vec<String>| row@.map_values(|f: String| f@)),
            ),
            Err(_) => csv_rows_of(bytes@) is None,
        },
{
    let mut rdr = csv::ReaderBuilder::new().has_headers(false).flexible(true).from_reader(bytes);
    let mut rows: Vec<Vec<String>> = Vec::new();
    for rec in rdr.into_records() {
        let rec = rec?;
        rows.push(rec.iter().map(|f| f.to_string()).collect());
    }
    Ok(rows)
}

/// The encoded line of one mapping entry.
pub open spec fn line_of_rec(m: MapRecV) -> Seq<u8> {
    csv_row_of(seq![m.name, m.album, m.artist, m.sp_id])
}

/// Encodes one mapping or progress entry as a single tabular line.
pub fn encode_record_line(rec: &MapRec) -> (r: Vec<u8>)
    ensures
        r@ == line_of_rec(rec@),
{
    let fields = vec![
        rec.name.clone(),
        rec.album.clone(),
        rec.artist.clone(),
        rec.sp_id.clone(),
    ];
    let r = csv_row(&fields);
    proof {
        assert(fields@.map_values(|f: String| f@) =~= seq![
            rec@.name,
            rec@.album,
            rec@.artist,
            rec@.sp_id,
        ]);
    }
    r
}

/// The header line of the mapping file.
pub open spec fn header_line() -> Seq<u8> {
    csv_row_of(seq!["name"@, "album"@, "artist"@, "sp_id"@])
}

/// The encoded line of one local record.
pub open spec fn line_of_lib_rec(l: LibRecV) -> Seq<u8> {
    csv_row_of(seq![l.name, l.album, l.artist])
}

/// The header line of the local-record file.
pub open spec fn lib_header_line() -> Seq<u8> {
    csv_row_of(seq!["name"@, "album"@, "artist"@])
}

/// The full bytes of the persisted local-record file: the header line, then
/// one line per record in order.
pub open spec fn library_bytes_of(rows: Seq<LibRecV>) -> Seq<u8>
    decreases rows.len(),
{
    if rows.len() == 0 {
        lib_header_line()
    } else {
        library_bytes_of(rows.drop_last()) + line_of_lib_rec(rows.last())
    }
}

/// Encodes the whole local-record collection, header row first.
pub fn encode_library(rows: &Vec<LibRec>) -> (r: Vec<u8>)
    ensures
        r@ == library_bytes_of(rows@.map_values(|l: LibRec| l@)),
{
    let ghost rv = rows@.map_values(|l: LibRec| l@);
    let header = vec![
        String::from_str("name"),
        String::from_str("album"),
        String::from_str("artist"),
    ];
    let mut out = csv_row(&header);
    proof {
        assert(header@.map_values(|f: String| f@) =~= seq!["name"@, "album"@, "artist"@]);
        assert(out@ =~= library_bytes_of(rv.take(0)));
    }
    let mut i: usize = 0;
    while i < rows.len()
        invariant
            0 <= i <= rows@.len(),
            rv == rows@.map_values(|l: LibRec| l@),
            out@ == library_bytes_of(rv.take(i as int)),
        decreases rows@.len() - i,
    {
        let fields = vec![rows[i].name.clone(), rows[i].album.clone(), rows[i].artist.clone()];
        let mut line = csv_row(&fields);
        proof {
            assert(fields@.map_values(|f: String| f@) =~= seq![
                rv[i as int].name,
                rv[i as int].album,
                rv[i as int].artist,
            ]);
        }
        out.append(&mut line);
        proof {
            assert(rv.take(i as int + 1).drop_last() =~= rv.take(i as int));
            assert(rv.take(i as int + 1).last() == rv[i as int]);
        }
        i += 1;
    }
    proof {
        assert(rv.take(rows@.len() as int) =~= rv);
    }
    out
}

/// The full bytes of the persisted mapping: the header line, then one line
/// per entry in order.
pub open spec fn mapping_bytes_of(rows: Seq<MapRecV>) -> Seq<u8>
    decreases rows.len(),
{
    if rows.len() == 0 {
        header_line()
    } else {
        mapping_bytes_of(rows.drop_last()) + line_of_rec(rows.last())
    }
}

/// Encodes the whole mapping, header row first. Equal mappings encode to
/// byte-identical files.
pub fn encode_mapping(rows: &Vec<MapRec>) -> (r: Vec<u8>)
    ensures
        r@ == mapping_bytes_of(rows@.map_values(|m: MapRec| m@)),
{
    let ghost rv = rows@.map_values(|m: MapRec| m@);
    let header = vec![
        String::from_str("name"),
        String::from_str("album"),
        String::from_str("artist"),
        String::from_str("sp_id"),
    ];
    let mut out = csv_row(&header);
    proof {
        assert(header@.map_values(|f: String| f@) =~= seq![
            "name"@,
            "album"@,
            "artist"@,
            "sp_id"@,
        ]);
        assert(out@ =~= mapping_bytes_of(rv.take(0)));
    }
    let mut i: usize = 0;
    while i < rows.len()
        invariant
            0 <= i <= rows@.len(),
            rv == rows@.map_values(|m: MapRec| m@),
            out@ == mapping_bytes_of(rv.take(i as int)),
        decreases rows@.len() - i,
    {
        let mut line = encode_record_line(&rows[i]);
        out.append(&mut line);
        proof {
            assert(rv.take(i as int + 1).drop_last() =~= rv.take(i as int));
            assert(rv.take(i as int + 1).last() == rv[i as int]);
        }
        i += 1;
    }
    proof {
        assert(rv.take(rows@.len() as int) =~= rv);
    }
    out
}

/// The progress-log path is derived from the local-record file's name with
/// this fixed suffix.
pub fn progress_file_name(lib_name: &str) -> (r: String)
    ensures
        r@ == lib_name@ + "_progress.bak"@,
{
    let mut s = lib_name.to_owned();
    s.append("_progress.bak");
    s
}

/// The staged-commit path is the mapping file's name with this fixed
/// suffix; a file already standing there aborts the commit.
pub fn temp_map_file_name(map_name: &str) -> (r: String)
    ensures
        r@ == map_name@ + ".tmp"@,
{
    let mut s = map_name.to_owned();
    s.append(".tmp");
    s
}

/// Why a persisted file could not be read back.
#[derive(Debug)]
pub enum StoreError {
    /// The bytes are not well-formed tabular data.
    Parse,
    /// A data row does not have the expected number of fields.
    FieldCount,
}

/// The data rows of a parsed file: everything after the first `skip` rows,
/// or nothing where the file has no more than that.
pub open spec fn data_rows(rows: Seq<Seq<Seq<char>>>, skip: int) -> Seq<Seq<Seq<char>>> {
    if rows.len() <= skip {
        Seq::<Seq<Seq<char>>>::empty()
    } else {
        rows.skip(skip)
    }
}

/// The mapping entry read from one four-field row.
pub open spec fn map_rec_of_row(row: Seq<Seq<char>>) -> MapRecV {
    MapRecV { name: row[0], album: row[1], artist: row[2], sp_id: row[3] }
}

/// The local record read from one three-field row.
pub open spec fn lib_rec_of_row(row: Seq<Seq<char>>) -> LibRecV {
    LibRecV { name: row[0], album: row[1], artist: row[2] }
}

/// True iff every row has exactly `width` fields.
pub open spec fn rows_well_shaped(rows: Seq<Seq<Seq<char>>>, width: int) -> bool {
    forall|i: int| 0 <= i < rows.len() ==> (#[trigger] rows[i]).len() == width
}

/// Converts parsed rows to mapping entries, demanding four fields each.
fn rows_to_map_recs(rows: &Vec<Vec<String>>, skip: usize) -> (r: Result<Vec<MapRec>, StoreError>)
    requires
        skip <= 1,
    ensures
        match r {
            Ok(recs) => {
                let dv = data_rows(
                    rows@.map_values(|row: Vec<String>| row@.map_values(|f: String| f@)),
                    skip as int,
                );
                &&& rows_well_shaped(dv, 4)
                &&& recs@.map_values(|m: MapRec| m@) == dv.map_values(
                    |row: Seq<Seq<char>>| map_rec_of_row(row),
                )
            },
            Err(e) => e is FieldCount && !rows_well_shaped(
                data_rows(
                    rows@.map_values(|row: Vec<String>| row@.map_values(|f: String| f@)),
                    skip as int,
                ),
                4,
            ),
        },
{
    let ghost rv = rows@.map_values(|row: Vec<String>| row@.map_values(|f: String| f@));
    let ghost dv = data_rows(rv, skip as int);
    let mut recs: Vec<MapRec> = Vec::new();
    if rows.len() <= skip {
        proof {
            assert(recs@.map_values(|m: MapRec| m@) =~= dv.map_values(
                |row: Seq<Seq<char>>| map_rec_of_row(row),
            ));
        }
        return Ok(recs);
    }
    let mut i: usize = skip;
    while i < rows.len()
        invariant
            skip <= i <= rows@.len(),
            skip < rows@.len(),
            rv == rows@.map_values(|row: Vec<String>| row@.map_values(|f: String| f@)),
            dv == data_rows(rv, skip as int),
            recs@.len() == i - skip,
            forall|j: int| skip <= j < i ==> (#[trigger] rv[j]).len() == 4,
            forall|k: int|
                0 <= k < recs@.len() ==> (#[trigger] recs@[k])@ == map_rec_of_row(
                    rv[k + skip],
                ),
        decreases rows@.len() - i,
    {
        let row = &rows[i];
        if row.len() != 4 {
            proof {
                assert(rv[i as int] =~= row@.map_values(|f: String| f@));
                assert(dv[i - skip].len() != 4);
            }
            return Err(StoreError::FieldCount);
        }
        let rec = MapRec {
            name: row[0].clone(),
            album: row[1].clone(),
            artist: row[2].clone(),
            sp_id: row[3].clone(),
        };
        proof {
            assert(rv[i as int] =~= row@.map_values(|f: String| f@));
            assert(rec@ == map_rec_of_row(rv[i as int]));
        }
        recs.push(rec);
        i += 1;
    }
    proof {
        assert(forall|j: int| 0 <= j < dv.len() ==> dv[j] == rv[j + skip]);
        assert(recs@.map_values(|m: MapRec| m@) =~= dv.map_values(
            |row: Seq<Seq<char>>| map_rec_of_row(row),
        ));
    }
    Ok(recs)
}

/// Parses the persisted mapping file: a header row, then one entry per
/// four-field row. An empty file is an empty mapping.
pub fn parse_mapping(bytes: &[u8]) -> (r: Result<Vec<MapRec>, StoreError>)
    ensures
        match r {
            Ok(recs) => csv_rows_of(bytes@) matches Some(rows) && {
                &&& rows_well_shaped(data_rows(rows, 1), 4)
                &&& recs@.map_values(|m: MapRec| m@) == data_rows(rows, 1).map_values(
                    |row: Seq<Seq<char>>| map_rec_of_row(row),
                )
            },
            Err(e) => match e {
                StoreError::Parse => csv_rows_of(bytes@) is None,
                StoreError::FieldCount => csv_rows_of(bytes@) matches Some(rows)
                    && !rows_well_shaped(data_rows(rows, 1), 4),
            },
        },
{
    let rows = match csv_rows(bytes) {
        Ok(rows) => rows,
        Err(_) => {
            return Err(StoreError::Parse);
        },
    };
    rows_to_map_recs(&rows, 1)
}

/// Parses the progress-log file: no header row, one entry per four-field
/// row.
pub fn parse_progress(bytes: &[u8]) -> (r: Result<Vec<MapRec>, StoreError>)
    ensures
        match r {
            Ok(recs) => csv_rows_of(bytes@) matches Some(rows) && {
                &&& rows_well_shaped(rows, 4)
                &&& recs@.map_values(|m: MapRec| m@) == rows.map_values(
                    |row: Seq<Seq<char>>| map_rec_of_row(row),
                )
            },
            Err(e) => match e {
                StoreError::Parse => csv_rows_of(bytes@) is None,
                StoreError::FieldCount => csv_rows_of(bytes@) matches Some(rows)
                    && !rows_well_shaped(rows, 4),
            },
        },
{
    let rows = match csv_rows(bytes) {
        Ok(rows) => rows,
        Err(_) => {
            return Err(StoreError::Parse);
        },
    };
    let r = rows_to_map_recs(&rows, 0);
    proof {
        let rv = rows@.map_values(|row: Vec<String>| row@.map_values(|f: String| f@));
        assert(data_rows(rv, 0) =~= rv);
    }
    r
}

/// Parses the local-record file: a header row, then one record per
/// three-field row.
pub fn parse_library(bytes: &[u8]) -> (r: Result<Vec<LibRec>, StoreError>)
    ensures
        match r {
            Ok(recs) => csv_rows_of(bytes@) matches Some(rows) && {
                &&& rows_well_shaped(data_rows(rows, 1), 3)
                &&& recs@.map_values(|l: LibRec| l@) == data_rows(rows, 1).map_values(
                    |row: Seq<Seq<char>>| lib_rec_of_row(row),
                )
            },
            Err(e) => match e {
                StoreError::Parse => csv_rows_of(bytes@) is None,
                StoreError::FieldCount => csv_rows_of(bytes@) matches Some(rows)
                    && !rows_well_shaped(data_rows(rows, 1), 3),
            },
        },
{
    let rows = match csv_rows(bytes) {
        Ok(rows) => rows,
        Err(_) => {
            return Err(StoreError::Parse);
        },
    };
    let ghost rv = rows@.map_values(|row: Vec<String>| row@.map_values(|f: String| f@));
    let ghost dv = data_rows(rv, 1);
    let mut recs: Vec<LibRec> = Vec::new();
    if rows.len() <= 1 {
        proof {
            assert(recs@.map_values(|l: LibRec| l@) =~= dv.map_values(
                |row: Seq<Seq<char>>| lib_rec_of_row(row),
            ));
        }
        return Ok(recs);
    }
    let mut i: usize = 1;
    while i < rows.len()
        invariant
            1 <= i <= rows@.len(),
            1 < rows@.len(),
            rv == rows@.map_values(|row: Vec<String>| row@.map_values(|f: String| f@)),
            csv_rows_of(bytes@) == Some(rv),
            dv == data_rows(rv, 1),
            recs@.len() == i - 1,
            forall|j: int| 1 <= j < i ==> (#[trigger] rv[j]).len() == 3,
            forall|k: int|
                0 <= k < recs@.len() ==> (#[trigger] recs@[k])@ == lib_rec_of_row(rv[k + 1]),
        decreases rows@.len() - i,
    {
        let row = &rows[i];
        if row.len() != 3 {
            proof {
                assert(rv[i as int] =~= row@.map_values(|f: String| f@));
                assert(dv[i - 1].len() != 3);
            }
            return Err(StoreError::FieldCount);
        }
        let rec = LibRec { name: row[0].clone(), album: row[1].clone(), artist: row[2].clone() };
        proof {
            assert(rv[i as int] =~= row@.map_values(|f: String| f@));
            assert(rec@ == lib_rec_of_row(rv[i as int]));
        }
        recs.push(rec);
        i += 1;
    }
    proof {
        assert(forall|j: int| 0 <= j < dv.len() ==> dv[j] == rv[j + 1]);
        assert(recs@.map_values(|l: LibRec| l@) =~= dv.map_values(
            |row: Seq<Seq<char>>| lib_rec_of_row(row),
        ));
    }
    Ok(recs)
}

} // verus!
