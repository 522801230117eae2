//! The ingestion of an uploaded archive.
//!
//! The members of the archive are walked twice. The first walk reads the
//! revision record and the extraction schema, which say what else is
//! needed. The second walk retains the files that the schema declares, the
//! files that the record names and, where the schema asks for them, the
//! trajectory files; every other member is dropped. The declared variables
//! are then read from the retained files.

use vstd::prelude::*;
use crate::archive::{members, read_text, record_name, text_of, unpack, unpacked, Member};
use crate::assoc::{
    get, has_key, lemma_sorted_put_get, lemma_sorted_put_keys, lemma_sorted_put_sorted,
    lemma_without_get, lemma_without_keys, put, sorted, sorted_put, without,
};
use crate::connection::Connection;
use crate::diff::{diff_models, get_file_diffs, revision_diffs};
use crate::error::ErrorKind;
use crate::extract::{
    scalars, scan_lines, scan_thermo, thermo_tables, variables, VarKind, Variable,
};
use crate::json::{json_document, parse_json};
use crate::record::{record_of, RecordModel, RevisionRecord};
use crate::schema::{
    dump_word, empty_schema, rules, schema_of, ExtractionSchema, FileRule, RuleModel, SchemaModel,
    Trajectories,
};
use crate::table::Table;
use crate::text::{chars_of, contains, has_text, lines, split_lines};
use crate::trajectory::{parse_trajectory, trajectory};
use crate::value::{doc_new, doc_put, fields, Datum, Node};

verus! {

/// The name of the extraction schema in an archive.
pub open spec fn watch_word() -> Seq<char> {
    "watch"@
}

/// Whether a member is read by the first walk: whether it is the revision
/// record or the extraction schema.
pub open spec fn is_meta(name: Seq<char>) -> bool {
    name == record_name() || name == watch_word()
}

/// What the first walk found.
pub struct Meta {
    /// The texts of the members that were read.
    pub files: Seq<(Seq<char>, Seq<char>)>,
    /// The text of the schema, if there was one.
    pub schema_text: Option<Seq<char>>,
}

/// What the first walk finds in the members from position `i` on, after
/// `acc`: the text of the member named `REV` and of the member named
/// `watch`, of the last one where a name occurs twice. `None` where such a
/// member is no text.
pub open spec fn first_pass(ms: Seq<(Seq<char>, Seq<u8>)>, i: int, acc: Meta) -> Option<Meta>
    decreases ms.len() - i,
{
    if i < 0 || i >= ms.len() {
        Some(acc)
    } else if is_meta(ms[i].0) {
        match text_of(ms[i].1) {
            Some(text) => first_pass(
                ms,
                i + 1,
                Meta {
                    files: sorted_put(acc.files, ms[i].0, text),
                    schema_text: if ms[i].0 == watch_word() {
                        Some(text)
                    } else {
                        acc.schema_text
                    },
                },
            ),
            None => None,
        }
    } else {
        first_pass(ms, i + 1, acc)
    }
}

/// The schema of an upload: the empty schema where the archive holds none.
pub open spec fn schema_in(text: Option<Seq<char>>) -> Option<SchemaModel> {
    match text {
        None => Some(empty_schema()),
        Some(t) => match json_document(t) {
            Some(root) => schema_of(root),
            None => None,
        },
    }
}

/// Whether one of the rules from position `i` on is for the file `name`.
pub open spec fn declared(files: Seq<RuleModel>, name: Seq<char>, i: int) -> bool
    decreases files.len() - i,
{
    if i < 0 || i >= files.len() {
        false
    } else {
        files[i].name == name || declared(files, name, i + 1)
    }
}

/// Whether the member `name` is retained: the schema declares it, the
/// record names it, or it is a trajectory file and the schema asks for
/// those.
pub open spec fn wanted(name: Seq<char>, schema: SchemaModel, record: RecordModel) -> bool {
    ||| declared(schema.files, name, 0)
    ||| has_key(record.files, name)
    ||| (schema.trajectories != Trajectories::Ignore && contains(name, dump_word()))
}

/// The retained files after the second walk over the members from
/// position `i` on. `None` where a wanted member is no text.
pub open spec fn second_pass(
    ms: Seq<(Seq<char>, Seq<u8>)>,
    schema: SchemaModel,
    record: RecordModel,
    i: int,
    files: Seq<(Seq<char>, Seq<char>)>,
) -> Option<Seq<(Seq<char>, Seq<char>)>>
    decreases ms.len() - i,
{
    if i < 0 || i >= ms.len() {
        Some(files)
    } else if wanted(ms[i].0, schema, record) {
        match text_of(ms[i].1) {
            Some(text) => second_pass(ms, schema, record, i + 1, sorted_put(files, ms[i].0, text)),
            None => None,
        }
    } else {
        second_pass(ms, schema, record, i + 1, files)
    }
}

/// Whether one of the variables from position `i` on is a table of
/// numbers.
pub open spec fn has_thermo(vars: Seq<(Seq<char>, VarKind)>, i: int) -> bool
    decreases vars.len() - i,
{
    if i < 0 || i >= vars.len() {
        false
    } else {
        vars[i].1 == VarKind::ThermoLog || has_thermo(vars, i + 1)
    }
}

/// The extracted document and the stored files.
pub struct Harvest {
    pub extracted: Seq<(Seq<char>, Node)>,
    pub files: Seq<(Seq<char>, Seq<char>)>,
}

/// What one rule makes of the harvest: the variables of the rule are read
/// from the lines of its file, and the file is dropped from the stored
/// files where the rule says so. `None` where the file is not among the
/// stored files or a value cannot be read.
pub open spec fn apply_rule(h: Harvest, rule: RuleModel) -> Option<Harvest> {
    match get(h.files, rule.name) {
        Some(text) => match scalars(h.extracted, lines(text), rule.variables) {
            Some(doc) => {
                let tables = if has_thermo(rule.variables, 0) {
                    thermo_tables(doc, lines(text))
                } else {
                    Some(doc)
                };
                match tables {
                    Some(extracted) => Some(
                        Harvest {
                            extracted,
                            files: if rule.upload {
                                h.files
                            } else {
                                without(h.files, rule.name)
                            },
                        },
                    ),
                    None => None,
                }
            },
            None => None,
        },
        None => None,
    }
}

/// What the rules from position `i` on make of the harvest.
pub open spec fn apply_rules(h: Harvest, files: Seq<RuleModel>, i: int) -> Option<Harvest>
    decreases files.len() - i,
{
    if i < 0 || i >= files.len() {
        Some(h)
    } else {
        match apply_rule(h, files[i]) {
            Some(next) => apply_rules(next, files, i + 1),
            None => None,
        }
    }
}

/// What reading the trajectory files from position `i` of `all` on makes
/// of the harvest: the frames of each are stored under its name, and its
/// text is dropped. `None` where a file does not fit the grammar.
pub open spec fn apply_trajectories(h: Harvest, all: Seq<(Seq<char>, Seq<char>)>, i: int)
    -> Option<Harvest>
    decreases all.len() - i,
{
    if i < 0 || i >= all.len() {
        Some(h)
    } else if contains(all[i].0, dump_word()) {
        match trajectory(all[i].1) {
            Some(frames) => apply_trajectories(
                Harvest {
                    extracted: put(h.extracted, all[i].0, Node::Doc(frames)),
                    files: without(h.files, all[i].0),
                },
                all,
                i + 1,
            ),
            None => None,
        }
    } else {
        apply_trajectories(h, all, i + 1)
    }
}

/// What an upload yields.
#[derive(Debug)]
pub struct Ingested {
    /// The revision record of the upload.
    pub record: RevisionRecord,
    /// The texts that are stored.
    pub files: Table,
    /// The extracted values.
    pub extracted: Vec<(String, Datum)>,
}

/// The mathematical content of an [`Ingested`].
pub struct IngestedModel {
    pub record: RecordModel,
    pub files: Seq<(Seq<char>, Seq<char>)>,
    pub extracted: Seq<(Seq<char>, Node)>,
}

impl View for Ingested {
    type V = IngestedModel;

    open spec fn view(&self) -> IngestedModel {
        IngestedModel {
            record: self.record@,
            files: self.files@,
            extracted: fields(self.extracted@),
        }
    }
}

/// What the members of an archive yield, or `None` where the archive
/// holds no readable revision record, a malformed schema, a wanted member
/// that is no text, or a file from which a declared value cannot be read.
pub open spec fn ingested(ms: Seq<(Seq<char>, Seq<u8>)>) -> Option<IngestedModel> {
    match first_pass(ms, 0, Meta { files: Seq::empty(), schema_text: None }) {
        Some(meta) => match (get(meta.files, record_name()), schema_in(meta.schema_text)) {
            (Some(text), Some(schema)) => match record_of(text) {
                Some(record) => match second_pass(ms, schema, record, 0, meta.files) {
                    Some(files) => match apply_rules(
                        Harvest { extracted: Seq::empty(), files },
                        schema.files,
                        0,
                    ) {
                        Some(h) => {
                            let done = if schema.trajectories == Trajectories::Parse {
                                apply_trajectories(h, h.files, 0)
                            } else {
                                Some(h)
                            };
                            match done {
                                Some(end) => Some(
                                    IngestedModel {
                                        record,
                                        files: end.files,
                                        extracted: end.extracted,
                                    },
                                ),
                                None => None,
                            }
                        },
                        None => None,
                    },
                    None => None,
                },
                None => None,
            },
            _ => None,
        },
        None => None,
    }
}

/// Tests whether a name holds a word.
fn name_holds(name: &String, word: &str) -> (r: bool)
    ensures
        r == contains(name@, word@),
{
    let hay = chars_of(name.as_str());
    let needle = chars_of(word);
    has_text(hay.as_slice(), needle.as_slice())
}

/// The first walk over the members of an archive.
pub fn read_meta(list: &Vec<Member>) -> (r: Result<(Table, Option<String>), ErrorKind>)
    ensures
        match r {
            Ok(found) => first_pass(
                members(list@),
                0,
                Meta { files: Seq::empty(), schema_text: None },
            ) == Some(
                Meta {
                    files: found.0@,
                    schema_text: match found.1 {
                        Some(t) => Some(t@),
                        None => None,
                    },
                },
            ),
            Err(e) => e == ErrorKind::ExtractionError && first_pass(
                members(list@),
                0,
                Meta { files: Seq::empty(), schema_text: None },
            ) is None,
        },
{
    let mut files = Table::new();
    let mut schema_text: Option<String> = None;
    let mut i: usize = 0;
    while i < list.len()
        invariant
            i <= list.len(),
            first_pass(members(list@), 0, Meta { files: Seq::empty(), schema_text: None })
                == first_pass(
                members(list@),
                i as int,
                Meta {
                    files: files@,
                    schema_text: match schema_text {
                        Some(t) => Some(t@),
                        None => None,
                    },
                },
            ),
        decreases list.len() - i,
    {
        assert(members(list@)[i as int] == list@[i as int]@);
        let is_schema = list[i].name == "watch".to_string();
        if is_schema || list[i].name == "REV".to_string() {
            match read_text(&list[i].body) {
                Some(text) => {
                    if is_schema {
                        schema_text = Some(text.clone());
                    }
                    files = files.insert(list[i].name.clone(), text);
                },
                None => {
                    return Err(ErrorKind::ExtractionError);
                },
            }
        }
        i += 1;
    }
    Ok((files, schema_text))
}

/// Reads the schema of an upload.
pub fn read_schema(text: &Option<String>) -> (r: Result<ExtractionSchema, ErrorKind>)
    ensures
        match r {
            Ok(s) => schema_in(
                match text {
                    Some(t) => Some(t@),
                    None => None,
                },
            ) == Some(s@),
            Err(e) => e == ErrorKind::ExtractionError && schema_in(
                match text {
                    Some(t) => Some(t@),
                    None => None,
                },
            ) is None,
        },
{
    match text {
        None => Ok(ExtractionSchema::empty()),
        Some(t) => match parse_json(t.as_str()) {
            Ok(root) => ExtractionSchema::from_json(&root),
            Err(e) => Err(e),
        },
    }
}

/// Tests whether the schema declares the file `name`.
fn is_declared(files: &Vec<FileRule>, name: &String) -> (r: bool)
    ensures
        r == declared(rules(files@), name@, 0),
{
    let mut i: usize = 0;
    while i < files.len()
        invariant
            i <= files.len(),
            declared(rules(files@), name@, 0) == declared(rules(files@), name@, i as int),
        decreases files.len() - i,
    {
        assert(rules(files@)[i as int] == files@[i as int]@);
        if files[i].name == *name {
            return true;
        }
        i += 1;
    }
    false
}

/// Tests whether a member is retained.
pub fn is_wanted(name: &String, schema: &ExtractionSchema, record: &RevisionRecord) -> (r: bool)
    ensures
        r == wanted(name@, schema@, record@),
{
    if is_declared(&schema.files, name) {
        return true;
    }
    if record.files.contains_key(name) {
        return true;
    }
    match schema.trajectories {
        Trajectories::Ignore => false,
        _ => name_holds(name, "dump"),
    }
}

/// The second walk over the members of an archive.
pub fn retain_members(
    list: &Vec<Member>,
    schema: &ExtractionSchema,
    record: &RevisionRecord,
    found: Table,
) -> (r: Result<Table, ErrorKind>)
    ensures
        match r {
            Ok(files) => second_pass(members(list@), schema@, record@, 0, found@) == Some(files@),
            Err(e) => e == ErrorKind::ExtractionError && second_pass(
                members(list@),
                schema@,
                record@,
                0,
                found@,
            ) is None,
        },
{
    let mut files = found;
    let mut i: usize = 0;
    while i < list.len()
        invariant
            i <= list.len(),
            second_pass(members(list@), schema@, record@, 0, found@) == second_pass(
                members(list@),
                schema@,
                record@,
                i as int,
                files@,
            ),
        decreases list.len() - i,
    {
        assert(members(list@)[i as int] == list@[i as int]@);
        if is_wanted(&list[i].name, schema, record) {
            match read_text(&list[i].body) {
                Some(text) => {
                    files = files.insert(list[i].name.clone(), text);
                },
                None => {
                    return Err(ErrorKind::ExtractionError);
                },
            }
        }
        i += 1;
    }
    Ok(files)
}

/// Tests whether a rule declares a table of numbers.
fn declares_thermo(vars: &Vec<Variable>) -> (r: bool)
    ensures
        r == has_thermo(variables(vars@), 0),
{
    let mut i: usize = 0;
    while i < vars.len()
        invariant
            i <= vars.len(),
            has_thermo(variables(vars@), 0) == has_thermo(variables(vars@), i as int),
        decreases vars.len() - i,
    {
        assert(variables(vars@)[i as int] == vars@[i as int]@);
        match vars[i].kind {
            VarKind::ThermoLog => {
                return true;
            },
            _ => {},
        }
        i += 1;
    }
    false
}

/// Applies one rule of the schema.
pub fn extract_rule(extracted: &mut Vec<(String, Datum)>, files: Table, rule: &FileRule) -> (r:
    Result<Table, ErrorKind>)
    ensures
        match r {
            Ok(kept) => apply_rule(
                Harvest { extracted: fields(old(extracted)@), files: files@ },
                rule@,
            ) == Some(Harvest { extracted: fields(final(extracted)@), files: kept@ }),
            Err(e) => e == ErrorKind::ExtractionError && apply_rule(
                Harvest { extracted: fields(old(extracted)@), files: files@ },
                rule@,
            ) is None,
        },
{
    let all = match files.get(&rule.name) {
        Some(text) => {
            let content = chars_of(text.as_str());
            split_lines(content.as_slice())
        },
        None => {
            return Err(ErrorKind::ExtractionError);
        },
    };
    match scan_lines(extracted, &all, &rule.variables) {
        Ok(()) => {},
        Err(e) => {
            return Err(e);
        },
    }
    if declares_thermo(&rule.variables) {
        match scan_thermo(extracted, &all) {
            Ok(()) => {},
            Err(e) => {
                return Err(e);
            },
        }
    }
    if rule.upload {
        Ok(files)
    } else {
        Ok(files.remove(&rule.name))
    }
}

/// Applies the rules of the schema, one after the other.
pub fn extract_rules(extracted: &mut Vec<(String, Datum)>, files: Table, schema: &Vec<FileRule>)
    -> (r: Result<Table, ErrorKind>)
    ensures
        match r {
            Ok(kept) => apply_rules(
                Harvest { extracted: fields(old(extracted)@), files: files@ },
                rules(schema@),
                0,
            ) == Some(Harvest { extracted: fields(final(extracted)@), files: kept@ }),
            Err(e) => e == ErrorKind::ExtractionError && apply_rules(
                Harvest { extracted: fields(old(extracted)@), files: files@ },
                rules(schema@),
                0,
            ) is None,
        },
{
    let ghost start = Harvest { extracted: fields(extracted@), files: files@ };
    let mut kept = files;
    let mut i: usize = 0;
    while i < schema.len()
        invariant
            i <= schema.len(),
            start == (Harvest { extracted: fields(old(extracted)@), files: files@ }),
            apply_rules(start, rules(schema@), 0) == apply_rules(
                Harvest { extracted: fields(extracted@), files: kept@ },
                rules(schema@),
                i as int,
            ),
        decreases schema.len() - i,
    {
        assert(rules(schema@)[i as int] == schema@[i as int]@);
        match extract_rule(extracted, kept, &schema[i]) {
            Ok(next) => {
                kept = next;
            },
            Err(e) => {
                return Err(e);
            },
        }
        i += 1;
    }
    Ok(kept)
}

/// Reads the trajectory files among the stored files.
pub fn extract_trajectories(extracted: &mut Vec<(String, Datum)>, files: Table) -> (r: Result<
    Table,
    ErrorKind,
>)
    ensures
        match r {
            Ok(kept) => apply_trajectories(
                Harvest { extracted: fields(old(extracted)@), files: files@ },
                files@,
                0,
            ) == Some(Harvest { extracted: fields(final(extracted)@), files: kept@ }),
            Err(e) => e == ErrorKind::ExtractionError && apply_trajectories(
                Harvest { extracted: fields(old(extracted)@), files: files@ },
                files@,
                0,
            ) is None,
        },
{
    let ghost start = Harvest { extracted: fields(extracted@), files: files@ };
    let all = files.copy();
    let mut kept = files;
    let n = all.len();
    let mut i: usize = 0;
    while i < n
        invariant
            i <= n,
            n == all@.len(),
            all@ == files@,
            start == (Harvest { extracted: fields(old(extracted)@), files: files@ }),
            apply_trajectories(start, all@, 0) == apply_trajectories(
                Harvest { extracted: fields(extracted@), files: kept@ },
                all@,
                i as int,
            ),
        decreases n - i,
    {
        if name_holds(all.key(i), "dump") {
            let content = chars_of(all.value(i).as_str());
            match parse_trajectory(content.as_slice()) {
                Ok(frames) => {
                    doc_put(extracted, all.key(i).clone(), Datum::Doc(frames));
                    kept = kept.remove(all.key(i));
                },
                Err(e) => {
                    return Err(e);
                },
            }
        }
        i += 1;
    }
    Ok(kept)
}

/// Ingests the members of an archive.
pub fn ingest(list: &Vec<Member>) -> (r: Result<Ingested, ErrorKind>)
    ensures
        match r {
            Ok(done) => ingested(members(list@)) == Some(done@),
            Err(e) => e == ErrorKind::ExtractionError && ingested(members(list@)) is None,
        },
{
    let (found, schema_text) = match read_meta(list) {
        Ok(found) => found,
        Err(e) => {
            return Err(e);
        },
    };
    let record_text = match found.get(&"REV".to_string()) {
        Some(text) => text.clone(),
        None => {
            return Err(ErrorKind::ExtractionError);
        },
    };
    let schema = match read_schema(&schema_text) {
        Ok(schema) => schema,
        Err(e) => {
            return Err(e);
        },
    };
    let record = match RevisionRecord::parse(record_text.as_str()) {
        Ok(record) => record,
        Err(e) => {
            return Err(e);
        },
    };
    let files = match retain_members(list, &schema, &record, found) {
        Ok(files) => files,
        Err(e) => {
            return Err(e);
        },
    };
    let mut extracted = doc_new();
    let files = match extract_rules(&mut extracted, files, &schema.files) {
        Ok(files) => files,
        Err(e) => {
            return Err(e);
        },
    };
    let files = match schema.trajectories {
        Trajectories::Parse => match extract_trajectories(&mut extracted, files) {
            Ok(files) => files,
            Err(e) => {
                return Err(e);
            },
        },
        _ => files,
    };
    Ok(Ingested { record, files, extracted })
}

/// Unpacks and ingests a compressed archive.
pub fn decompress_data(data: &[u8]) -> (r: Result<Ingested, ErrorKind>)
    ensures
        match r {
            Ok(done) => match unpacked(data@) {
                Some(ms) => ingested(ms) == Some(done@),
                None => false,
            },
            Err(e) => e == ErrorKind::ExtractionError && match unpacked(data@) {
                Some(ms) => ingested(ms) is None,
                None => true,
            },
        },
{
    match unpack(data) {
        Ok(list) => ingest(&list),
        Err(e) => Err(e),
    }
}

/// The record of an accepted upload, as it goes into the store.
#[derive(Debug)]
pub struct IngestionRecord {
    /// The name under which the upload is shown.
    pub upload_name: String,
    /// The path of the stored archive.
    pub upload_path: String,
    /// The time of the upload, in seconds since 1970.
    pub upload_time: i64,
    /// The id of the revision.
    pub id: String,
    /// The id of the parent revision, or `*`.
    pub parent_id: String,
    /// The stored texts, by file name.
    pub files: Table,
    /// The extracted values.
    pub extracted: Vec<(String, Datum)>,
    /// The hunks of the diff of each changed file against the parent.
    pub diffs: Vec<(String, Vec<String>)>,
}

/// The processor of one upload.
#[derive(Debug)]
pub struct Processor {
    /// The path of the stored archive.
    pub file_path: String,
    /// What the request said of the upload.
    pub conn: Connection,
    /// The configuration of the server.
    pub config: Table,
}

impl Processor {
    /// A processor for the archive at `file_path`.
    pub fn new(file_path: String, conn: Connection, config: Table) -> (p: Processor)
        ensures
            p.file_path == file_path,
            p.conn == conn,
            p.config == config,
    {
        Processor { file_path, conn, config }
    }

    /// Builds the record of an upload from what the archive yielded and
    /// from the stored texts of the parent revision, where the store holds
    /// the parent. The record is whole or there is none: a failure of the
    /// diff leaves no record.
    pub fn process_data(&self, ingested: Ingested, parent: Option<&Table>, upload_time: i64) -> (r:
        Result<IngestionRecord, ErrorKind>)
        ensures
            match r {
                Ok(record) => {
                    &&& revision_diffs(
                        ingested@.record,
                        ingested@.files,
                        match parent {
                            Some(p) => Some(p@),
                            None => None,
                        },
                    ) == Some(diff_models(record.diffs@))
                    &&& record.upload_name@ == self.conn.filename@
                    &&& record.upload_path@ == self.file_path@
                    &&& record.upload_time == upload_time
                    &&& record.id@ == ingested@.record.id
                    &&& record.parent_id@ == ingested@.record.parent_id
                    &&& record.files@ == ingested@.files
                    &&& fields(record.extracted@) == ingested@.extracted
                },
                Err(e) => e == ErrorKind::ExtractionError && revision_diffs(
                    ingested@.record,
                    ingested@.files,
                    match parent {
                        Some(p) => Some(p@),
                        None => None,
                    },
                ) is None,
            },
    {
        let diffs = match get_file_diffs(&ingested.record, &ingested.files, parent) {
            Ok(diffs) => diffs,
            Err(e) => {
                return Err(e);
            },
        };
        Ok(
            IngestionRecord {
                upload_name: self.conn.filename.clone(),
                upload_path: self.file_path.clone(),
                upload_time,
                id: ingested.record.id,
                parent_id: ingested.record.parent_id,
                files: ingested.files,
                extracted: ingested.extracted,
                diffs,
            },
        )
    }
}

/// Judges the single insert that commits a record: the upload fails as a
/// whole where the store did not take the record.
pub fn confirm_insert(inserted: bool) -> (r: Result<(), ErrorKind>)
    ensures
        match r {
            Ok(()) => inserted,
            Err(e) => e == ErrorKind::StorageError && !inserted,
        },
{
    if inserted {
        Ok(())
    } else {
        Err(ErrorKind::StorageError)
    }
}

/// The first walk keeps only the record and the schema.
pub proof fn lemma_first_pass_keys(ms: Seq<(Seq<char>, Seq<u8>)>, i: int, acc: Meta, k: Seq<char>)
    requires
        0 <= i,
        first_pass(ms, i, acc) is Some,
        has_key(first_pass(ms, i, acc)->0.files, k),
    ensures
        has_key(acc.files, k) || exists|j: int|
            i <= j < ms.len() && (#[trigger] ms[j]).0 == k && is_meta(k),
    decreases ms.len() - i,
{
    if i < ms.len() {
        if is_meta(ms[i].0) {
            let text = text_of(ms[i].1)->0;
            let next = Meta {
                files: sorted_put(acc.files, ms[i].0, text),
                schema_text: if ms[i].0 == watch_word() {
                    Some(text)
                } else {
                    acc.schema_text
                },
            };
            lemma_first_pass_keys(ms, i + 1, next, k);
            lemma_sorted_put_keys(acc.files, ms[i].0, text, k);
            if k == ms[i].0 {
                assert(i <= i < ms.len() && ms[i].0 == k && is_meta(k));
            }
        } else {
            lemma_first_pass_keys(ms, i + 1, acc, k);
        }
    }
}

/// The second walk keeps only members that are wanted.
pub proof fn lemma_second_pass_keys(
    ms: Seq<(Seq<char>, Seq<u8>)>,
    schema: SchemaModel,
    record: RecordModel,
    i: int,
    files: Seq<(Seq<char>, Seq<char>)>,
    k: Seq<char>,
)
    requires
        0 <= i,
        second_pass(ms, schema, record, i, files) is Some,
        has_key(second_pass(ms, schema, record, i, files)->0, k),
    ensures
        has_key(files, k) || exists|j: int|
            i <= j < ms.len() && (#[trigger] ms[j]).0 == k && wanted(k, schema, record),
    decreases ms.len() - i,
{
    if i < ms.len() {
        if wanted(ms[i].0, schema, record) {
            let text = text_of(ms[i].1)->0;
            lemma_second_pass_keys(
                ms,
                schema,
                record,
                i + 1,
                sorted_put(files, ms[i].0, text),
                k,
            );
            lemma_sorted_put_keys(files, ms[i].0, text, k);
            if k == ms[i].0 {
                assert(i <= i < ms.len() && ms[i].0 == k && wanted(k, schema, record));
            }
        } else {
            lemma_second_pass_keys(ms, schema, record, i + 1, files, k);
        }
    }
}

/// Applying the rules of a schema stores no further file.
pub proof fn lemma_apply_rules_keys(h: Harvest, files: Seq<RuleModel>, i: int, k: Seq<char>)
    requires
        0 <= i,
        apply_rules(h, files, i) is Some,
        has_key(apply_rules(h, files, i)->0.files, k),
    ensures
        has_key(h.files, k),
    decreases files.len() - i,
{
    if i < files.len() {
        let next = apply_rule(h, files[i])->0;
        lemma_apply_rules_keys(next, files, i + 1, k);
        lemma_without_keys(h.files, files[i].name, k);
    }
}

/// Reading the trajectory files stores no further file.
pub proof fn lemma_apply_trajectories_keys(
    h: Harvest,
    all: Seq<(Seq<char>, Seq<char>)>,
    i: int,
    k: Seq<char>,
)
    requires
        0 <= i,
        apply_trajectories(h, all, i) is Some,
        has_key(apply_trajectories(h, all, i)->0.files, k),
    ensures
        has_key(h.files, k),
    decreases all.len() - i,
{
    if i < all.len() {
        if contains(all[i].0, dump_word()) {
            let next = Harvest {
                extracted: put(h.extracted, all[i].0, Node::Doc(trajectory(all[i].1)->0)),
                files: without(h.files, all[i].0),
            };
            lemma_apply_trajectories_keys(next, all, i + 1, k);
            lemma_without_keys(h.files, all[i].0, k);
        } else {
            lemma_apply_trajectories_keys(h, all, i + 1, k);
        }
    }
}

/// Only declared interest is stored: every file that an upload stores is
/// a member of the archive that is the record or the schema, or that the
/// schema or the record of the upload wants. Every other member is
/// dropped.
pub proof fn lemma_only_declared_interest_is_stored(ms: Seq<(Seq<char>, Seq<u8>)>, k: Seq<char>)
    requires
        ingested(ms) is Some,
        has_key(ingested(ms)->0.files, k),
    ensures
        ({
            let meta = first_pass(ms, 0, Meta { files: Seq::empty(), schema_text: None })->0;
            let schema = schema_in(meta.schema_text)->0;
            let record = record_of(get(meta.files, record_name())->0)->0;
            exists|j: int|
                0 <= j < ms.len() && (#[trigger] ms[j]).0 == k && (is_meta(k) || wanted(
                    k,
                    schema,
                    record,
                ))
        }),
{
    let start = Meta { files: Seq::empty(), schema_text: None };
    let meta = first_pass(ms, 0, start)->0;
    let schema = schema_in(meta.schema_text)->0;
    let record = record_of(get(meta.files, record_name())->0)->0;
    let files = second_pass(ms, schema, record, 0, meta.files)->0;
    let h0 = Harvest { extracted: Seq::empty(), files };
    let h = apply_rules(h0, schema.files, 0)->0;
    if schema.trajectories == Trajectories::Parse {
        lemma_apply_trajectories_keys(h, h.files, 0, k);
    }
    lemma_apply_rules_keys(h0, schema.files, 0, k);
    lemma_second_pass_keys(ms, schema, record, 0, meta.files, k);
    if has_key(meta.files, k) {
        lemma_first_pass_keys(ms, 0, start, k);
        crate::assoc::lemma_has_key(start.files, k);
    }
}

/// Whether every member has a name of its own.
pub open spec fn distinct_names(ms: Seq<(Seq<char>, Seq<u8>)>) -> bool {
    forall|x: int, y: int| 0 <= x < y < ms.len() ==> (#[trigger] ms[x]).0 != (#[trigger] ms[y]).0
}

/// Whether one of the rules from position `i` on keeps the text of the
/// file `name` out of the store.
pub open spec fn withheld(files: Seq<RuleModel>, name: Seq<char>, i: int) -> bool
    decreases files.len() - i,
{
    if i < 0 || i >= files.len() {
        false
    } else {
        (files[i].name == name && !files[i].upload) || withheld(files, name, i + 1)
    }
}

/// The first walk keeps the files sorted.
pub proof fn lemma_first_pass_sorted(ms: Seq<(Seq<char>, Seq<u8>)>, i: int, acc: Meta)
    requires
        0 <= i,
        sorted(acc.files),
        first_pass(ms, i, acc) is Some,
    ensures
        sorted(first_pass(ms, i, acc)->0.files),
    decreases ms.len() - i,
{
    if i < ms.len() {
        if is_meta(ms[i].0) {
            let text = text_of(ms[i].1)->0;
            let next = Meta {
                files: sorted_put(acc.files, ms[i].0, text),
                schema_text: if ms[i].0 == watch_word() {
                    Some(text)
                } else {
                    acc.schema_text
                },
            };
            lemma_sorted_put_sorted(acc.files, ms[i].0, text);
            lemma_first_pass_sorted(ms, i + 1, next);
        } else {
            lemma_first_pass_sorted(ms, i + 1, acc);
        }
    }
}

/// The second walk leaves a name as it was that no later member has.
pub proof fn lemma_second_pass_keeps(
    ms: Seq<(Seq<char>, Seq<u8>)>,
    schema: SchemaModel,
    record: RecordModel,
    i: int,
    files: Seq<(Seq<char>, Seq<char>)>,
    k: Seq<char>,
)
    requires
        0 <= i,
        sorted(files),
        second_pass(ms, schema, record, i, files) is Some,
        forall|t: int| i <= t < ms.len() ==> (#[trigger] ms[t]).0 != k,
    ensures
        get(second_pass(ms, schema, record, i, files)->0, k) == get(files, k),
    decreases ms.len() - i,
{
    if i < ms.len() {
        assert(ms[i].0 != k);
        if wanted(ms[i].0, schema, record) {
            let text = text_of(ms[i].1)->0;
            let next = sorted_put(files, ms[i].0, text);
            lemma_sorted_put_sorted(files, ms[i].0, text);
            lemma_sorted_put_get(files, ms[i].0, text, k);
            lemma_second_pass_keeps(ms, schema, record, i + 1, next, k);
        } else {
            lemma_second_pass_keeps(ms, schema, record, i + 1, files, k);
        }
    }
}

/// The second walk stores the whole text of each wanted member.
pub proof fn lemma_second_pass_get(
    ms: Seq<(Seq<char>, Seq<u8>)>,
    schema: SchemaModel,
    record: RecordModel,
    i: int,
    files: Seq<(Seq<char>, Seq<char>)>,
    j: int,
)
    requires
        0 <= i <= j < ms.len(),
        sorted(files),
        distinct_names(ms),
        wanted(ms[j].0, schema, record),
        second_pass(ms, schema, record, i, files) is Some,
    ensures
        text_of(ms[j].1) is Some,
        get(second_pass(ms, schema, record, i, files)->0, ms[j].0) == text_of(ms[j].1),
    decreases ms.len() - i,
{
    if i == j {
        let text = text_of(ms[j].1)->0;
        let next = sorted_put(files, ms[j].0, text);
        lemma_sorted_put_sorted(files, ms[j].0, text);
        lemma_sorted_put_get(files, ms[j].0, text, ms[j].0);
        assert forall|t: int| j + 1 <= t < ms.len() implies (#[trigger] ms[t]).0 != ms[j].0 by {
            assert(ms[j].0 != ms[t].0);
        }
        lemma_second_pass_keeps(ms, schema, record, j + 1, next, ms[j].0);
    } else if wanted(ms[i].0, schema, record) {
        let text = text_of(ms[i].1)->0;
        lemma_sorted_put_sorted(files, ms[i].0, text);
        lemma_second_pass_get(ms, schema, record, i + 1, sorted_put(files, ms[i].0, text), j);
    } else {
        lemma_second_pass_get(ms, schema, record, i + 1, files, j);
    }
}

/// Applying the rules leaves the text of a file as it was that no rule
/// keeps out of the store.
pub proof fn lemma_apply_rules_get(h: Harvest, files: Seq<RuleModel>, i: int, k: Seq<char>)
    requires
        0 <= i,
        apply_rules(h, files, i) is Some,
        !withheld(files, k, i),
    ensures
        get(apply_rules(h, files, i)->0.files, k) == get(h.files, k),
    decreases files.len() - i,
{
    if i < files.len() {
        let next = apply_rule(h, files[i])->0;
        lemma_apply_rules_get(next, files, i + 1, k);
        if !files[i].upload {
            lemma_without_get(h.files, files[i].name, k);
        }
    }
}

/// Reading the trajectory files leaves the text of every other file as it
/// was.
pub proof fn lemma_apply_trajectories_get(
    h: Harvest,
    all: Seq<(Seq<char>, Seq<char>)>,
    i: int,
    k: Seq<char>,
)
    requires
        0 <= i,
        apply_trajectories(h, all, i) is Some,
        !contains(k, dump_word()),
    ensures
        get(apply_trajectories(h, all, i)->0.files, k) == get(h.files, k),
    decreases all.len() - i,
{
    if i < all.len() {
        if contains(all[i].0, dump_word()) {
            let next = Harvest {
                extracted: put(h.extracted, all[i].0, Node::Doc(trajectory(all[i].1)->0)),
                files: without(h.files, all[i].0),
            };
            lemma_apply_trajectories_get(next, all, i + 1, k);
            lemma_without_get(h.files, all[i].0, k);
        } else {
            lemma_apply_trajectories_get(h, all, i + 1, k);
        }
    }
}

/// Declared interest is stored: a member that the schema or the record of
/// the upload wants is stored with its whole text, unless a rule of the
/// schema keeps its text out of the store or it is a trajectory file that
/// is read into frames.
pub proof fn lemma_declared_interest_is_stored(ms: Seq<(Seq<char>, Seq<u8>)>, j: int)
    requires
        ingested(ms) is Some,
        distinct_names(ms),
        0 <= j < ms.len(),
        ({
            let meta = first_pass(ms, 0, Meta { files: Seq::empty(), schema_text: None })->0;
            let schema = schema_in(meta.schema_text)->0;
            let record = record_of(get(meta.files, record_name())->0)->0;
            &&& wanted(ms[j].0, schema, record)
            &&& !withheld(schema.files, ms[j].0, 0)
            &&& !(schema.trajectories == Trajectories::Parse && contains(ms[j].0, dump_word()))
        }),
    ensures
        text_of(ms[j].1) is Some,
        get(ingested(ms)->0.files, ms[j].0) == text_of(ms[j].1),
{
    let start = Meta { files: Seq::empty(), schema_text: None };
    let meta = first_pass(ms, 0, start)->0;
    let schema = schema_in(meta.schema_text)->0;
    let record = record_of(get(meta.files, record_name())->0)->0;
    let files = second_pass(ms, schema, record, 0, meta.files)->0;
    let h0 = Harvest { extracted: Seq::empty(), files };
    let h = apply_rules(h0, schema.files, 0)->0;
    lemma_first_pass_sorted(ms, 0, start);
    lemma_second_pass_get(ms, schema, record, 0, meta.files, j);
    lemma_apply_rules_get(h0, schema.files, 0, ms[j].0);
    if schema.trajectories == Trajectories::Parse {
        lemma_apply_trajectories_get(h, h.files, 0, ms[j].0);
    }
}

} // verus!
