//! The extraction schema of a collection.
//!
//! A schema is written as a JSON object. Each member names a file and gives
//! the variables to read from it and whether the file's text is stored. The
//! member `dump` is no file: it says that trajectory files are wanted, and
//! whether they are read into frames.

use vstd::prelude::*;
use crate::assoc::get;
use crate::error::ErrorKind;
use crate::extract::{variables, VarKind, Variable};
use crate::text::{chars_of, integer_of, parse_int};
use crate::value::{doc_get, fields, Datum, Node};

verus! {

/// What is done with trajectory files.
#[derive(Clone, Copy, Debug, PartialEq, Eq, Structural)]
pub enum Trajectories {
    /// The schema does not ask for them.
    Ignore,
    /// They are stored as they are.
    Keep,
    /// They are read into frames, and their text is not stored.
    Parse,
}

/// What a schema declares for one file.
#[derive(Debug)]
pub struct FileRule {
    /// The name of the file.
    pub name: String,
    /// The variables to read from it.
    pub variables: Vec<Variable>,
    /// Whether the text of the file is stored.
    pub upload: bool,
}

/// The mathematical content of a [`FileRule`].
pub struct RuleModel {
    pub name: Seq<char>,
    pub variables: Seq<(Seq<char>, VarKind)>,
    pub upload: bool,
}

impl View for FileRule {
    type V = RuleModel;

    open spec fn view(&self) -> RuleModel {
        RuleModel { name: self.name@, variables: variables(self.variables@), upload: self.upload }
    }
}

/// The content of a list of rules.
pub open spec fn rules(files: Seq<FileRule>) -> Seq<RuleModel> {
    Seq::new(files.len(), |i: int| files[i]@)
}

/// An extraction schema.
#[derive(Debug)]
pub struct ExtractionSchema {
    /// The declared files, in the order of the schema.
    pub files: Vec<FileRule>,
    /// What is done with trajectory files.
    pub trajectories: Trajectories,
}

/// The mathematical content of an [`ExtractionSchema`].
pub struct SchemaModel {
    pub files: Seq<RuleModel>,
    pub trajectories: Trajectories,
}

impl View for ExtractionSchema {
    type V = SchemaModel;

    open spec fn view(&self) -> SchemaModel {
        SchemaModel { files: rules(self.files@), trajectories: self.trajectories }
    }
}

/// The part of a name that marks a trajectory file, and the key of a
/// schema that says what is done with such files.
pub open spec fn dump_word() -> Seq<char> {
    "dump"@
}

/// The kind that a type name of a schema stands for.
pub open spec fn kind_of(name: Seq<char>) -> VarKind {
    if name == "int"@ {
        VarKind::Int
    } else if name == "float"@ {
        VarKind::Float
    } else if name == "string"@ {
        VarKind::Text
    } else if name == "long_string"@ {
        VarKind::LongText
    } else if name == "keywords"@ {
        VarKind::Keywords
    } else if name == "thermo_log"@ {
        VarKind::ThermoLog
    } else {
        VarKind::Unknown
    }
}

/// The variable that a member of `variables` declares: its value is an
/// object whose member `type` is a text.
pub open spec fn variable_of(entry: (Seq<char>, Node)) -> Option<(Seq<char>, VarKind)> {
    if entry.1 is Doc {
        match get(entry.1->Doc_0, "type"@) {
            Some(Node::Str(t)) => Some((entry.0, kind_of(t))),
            _ => None,
        }
    } else {
        None
    }
}

/// The variables that the members from position `i` on declare, after
/// `acc`.
pub open spec fn variables_from(
    d: Seq<(Seq<char>, Node)>,
    i: int,
    acc: Seq<(Seq<char>, VarKind)>,
) -> Option<Seq<(Seq<char>, VarKind)>>
    decreases d.len() - i,
{
    if i < 0 || i >= d.len() {
        Some(acc)
    } else {
        match variable_of(d[i]) {
            Some(v) => variables_from(d, i + 1, acc.push(v)),
            None => None,
        }
    }
}

/// The truth value that a number of a schema stands for: an integer, false
/// when it is zero.
pub open spec fn flag_of(n: Node) -> Option<bool> {
    match n {
        Node::Float(literal) => match integer_of(literal) {
            Some(v) => Some(v != 0),
            None => None,
        },
        _ => None,
    }
}

/// The rule that a member of the schema declares: its value is an object
/// with an object `variables` and an integer `upload`.
pub open spec fn rule_of(entry: (Seq<char>, Node)) -> Option<RuleModel> {
    if entry.1 is Doc {
        match (get(entry.1->Doc_0, "variables"@), get(entry.1->Doc_0, "upload"@)) {
            (Some(Node::Doc(vars)), Some(flag)) => match (
                variables_from(vars, 0, Seq::empty()),
                flag_of(flag),
            ) {
                (Some(variables), Some(upload)) => Some(
                    RuleModel { name: entry.0, variables, upload },
                ),
                _ => None,
            },
            _ => None,
        }
    } else {
        None
    }
}

/// The rules that the members from position `i` on declare, after `acc`.
/// The member `dump` declares no rule.
pub open spec fn rules_from(d: Seq<(Seq<char>, Node)>, i: int, acc: Seq<RuleModel>) -> Option<
    Seq<RuleModel>,
>
    decreases d.len() - i,
{
    if i < 0 || i >= d.len() {
        Some(acc)
    } else if d[i].0 == dump_word() {
        rules_from(d, i + 1, acc)
    } else {
        match rule_of(d[i]) {
            Some(r) => rules_from(d, i + 1, acc.push(r)),
            None => None,
        }
    }
}

/// What the schema says of trajectory files: nothing without a member
/// `dump`; to keep them where its `parse` is the integer zero; to read
/// them otherwise.
pub open spec fn trajectories_of(d: Seq<(Seq<char>, Node)>) -> Trajectories {
    match get(d, dump_word()) {
        None => Trajectories::Ignore,
        Some(Node::Doc(m)) => match get(m, "parse"@) {
            Some(flag) => if flag_of(flag) == Some(false) {
                Trajectories::Keep
            } else {
                Trajectories::Parse
            },
            None => Trajectories::Parse,
        },
        Some(_) => Trajectories::Parse,
    }
}

/// The schema that a JSON value declares, or `None` where the value is
/// malformed.
pub open spec fn schema_of(root: Node) -> Option<SchemaModel> {
    match root {
        Node::Doc(d) => match rules_from(d, 0, Seq::empty()) {
            Some(files) => Some(SchemaModel { files, trajectories: trajectories_of(d) }),
            None => None,
        },
        _ => None,
    }
}

/// The schema of a collection that declares nothing.
pub open spec fn empty_schema() -> SchemaModel {
    SchemaModel { files: Seq::empty(), trajectories: Trajectories::Ignore }
}

/// Reads the kind that a type name stands for.
pub fn read_kind(name: &String) -> (k: VarKind)
    ensures
        k == kind_of(name@),
{
    if *name == "int".to_string() {
        VarKind::Int
    } else if *name == "float".to_string() {
        VarKind::Float
    } else if *name == "string".to_string() {
        VarKind::Text
    } else if *name == "long_string".to_string() {
        VarKind::LongText
    } else if *name == "keywords".to_string() {
        VarKind::Keywords
    } else if *name == "thermo_log".to_string() {
        VarKind::ThermoLog
    } else {
        VarKind::Unknown
    }
}

/// Reads the truth value of a number of a schema.
fn read_flag(n: &Datum) -> (r: Option<bool>)
    ensures
        r == flag_of(n@),
{
    match n {
        Datum::Float(literal) => {
            let digits = chars_of(literal.as_str());
            match parse_int(digits.as_slice()) {
                Some(v) => Some(v != 0),
                None => None,
            }
        },
        _ => None,
    }
}

/// Reads the variables that an object declares.
fn read_variables(d: &Vec<(String, Datum)>) -> (r: Option<Vec<Variable>>)
    ensures
        match r {
            Some(vars) => variables_from(fields(d@), 0, Seq::empty()) == Some(variables(vars@)),
            None => variables_from(fields(d@), 0, Seq::empty()) is None,
        },
{
    let mut vars: Vec<Variable> = Vec::new();
    let mut i: usize = 0;
    assert(variables(vars@) =~= Seq::<(Seq<char>, VarKind)>::empty());
    while i < d.len()
        invariant
            i <= d.len(),
            variables_from(fields(d@), 0, Seq::empty()) == variables_from(
                fields(d@),
                i as int,
                variables(vars@),
            ),
        decreases d.len() - i,
    {
        let kind = match &d[i].1 {
            Datum::Doc(m) => match doc_get(m, &"type".to_string()) {
                Some(Datum::Str(t)) => read_kind(t),
                _ => {
                    return None;
                },
            },
            _ => {
                return None;
            },
        };
        let ghost before = variables(vars@);
        vars.push(Variable { name: d[i].0.clone(), kind });
        assert(variables(vars@) =~= before.push((d@[i as int].0@, kind)));
        i += 1;
    }
    Some(vars)
}

/// Reads the rule that a member of a schema declares.
fn read_rule(name: &String, body: &Datum) -> (r: Option<FileRule>)
    ensures
        match r {
            Some(rule) => rule_of((name@, body@)) == Some(rule@),
            None => rule_of((name@, body@)) is None,
        },
{
    match body {
        Datum::Doc(m) => {
            let vars = match doc_get(m, &"variables".to_string()) {
                Some(Datum::Doc(vars)) => vars,
                _ => {
                    return None;
                },
            };
            let flag = match doc_get(m, &"upload".to_string()) {
                Some(flag) => flag,
                None => {
                    return None;
                },
            };
            match read_variables(vars) {
                Some(variables) => match read_flag(flag) {
                    Some(upload) => Some(FileRule { name: name.clone(), variables, upload }),
                    None => None,
                },
                None => None,
            }
        },
        _ => None,
    }
}

/// Reads what a schema says of trajectory files.
fn read_trajectories(d: &Vec<(String, Datum)>) -> (r: Trajectories)
    ensures
        r == trajectories_of(fields(d@)),
{
    match doc_get(d, &"dump".to_string()) {
        None => Trajectories::Ignore,
        Some(Datum::Doc(m)) => match doc_get(m, &"parse".to_string()) {
            Some(flag) => match read_flag(flag) {
                Some(false) => Trajectories::Keep,
                _ => Trajectories::Parse,
            },
            None => Trajectories::Parse,
        },
        Some(_) => Trajectories::Parse,
    }
}

impl ExtractionSchema {
    /// The schema that declares nothing.
    pub fn empty() -> (s: ExtractionSchema)
        ensures
            s@ == empty_schema(),
    {
        let s = ExtractionSchema { files: Vec::new(), trajectories: Trajectories::Ignore };
        assert(rules(s.files@) =~= Seq::<RuleModel>::empty());
        s
    }

    /// Reads the schema that a JSON value declares.
    pub fn from_json(root: &Datum) -> (r: Result<ExtractionSchema, ErrorKind>)
        ensures
            match r {
                Ok(s) => schema_of(root@) == Some(s@),
                Err(e) => e == ErrorKind::ExtractionError && schema_of(root@) is None,
            },
    {
        let d = match root {
            Datum::Doc(d) => d,
            _ => {
                return Err(ErrorKind::ExtractionError);
            },
        };
        let dump = "dump".to_string();
        let mut files: Vec<FileRule> = Vec::new();
        let mut i: usize = 0;
        assert(rules(files@) =~= Seq::<RuleModel>::empty());
        while i < d.len()
            invariant
                i <= d.len(),
                dump@ == dump_word(),
                root@ == Node::Doc(fields(d@)),
                rules_from(fields(d@), 0, Seq::empty()) == rules_from(
                    fields(d@),
                    i as int,
                    rules(files@),
                ),
            decreases d.len() - i,
        {
            assert(fields(d@)[i as int] == (d@[i as int].0@, d@[i as int].1@));
            if d[i].0 != dump {
                match read_rule(&d[i].0, &d[i].1) {
                    Some(rule) => {
                        let ghost before = rules(files@);
                        files.push(rule);
                        assert(rules(files@) =~= before.push(rule@));
                    },
                    None => {
                        return Err(ErrorKind::ExtractionError);
                    },
                }
            }
            i += 1;
        }
        Ok(ExtractionSchema { files, trajectories: read_trajectories(d) })
    }
}

} // verus!
