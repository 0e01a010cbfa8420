//! Schema descriptors for the relations the bootstrap touches, and the SQL
//! text built from them.
//!
//! The target relation's column set is fixed: it is declared once as a value
//! and consumed by both the schema initializer (DDL text) and the loader
//! (insert text). Creation is idempotent at the relation-existence level, so
//! the DDL says `IF NOT EXISTS`.
use vstd::prelude::*;
use vstd::string::StringExecFns;

verus! {

/// Storage class of one column.
#[derive(Clone, Copy, Debug, PartialEq, Eq, Structural)]
pub enum ColumnType {
    Text,
    Integer,
    Real,
}

/// One column of a relation: name, storage type, primary-key flag.
pub struct Column {
    pub name: String,
    pub ctype: ColumnType,
    pub primary_key: bool,
}

pub ghost struct ColumnV {
    pub name: Seq<char>,
    pub ctype: ColumnType,
    pub primary_key: bool,
}

impl View for Column {
    type V = ColumnV;

    open spec fn view(&self) -> ColumnV {
        ColumnV { name: self.name@, ctype: self.ctype, primary_key: self.primary_key }
    }
}

impl DeepView for Column {
    type V = ColumnV;

    open spec fn deep_view(&self) -> ColumnV {
        self.view()
    }
}

pub open spec fn type_sql(t: ColumnType) -> Seq<char> {
    match t {
        ColumnType::Text => "TEXT"@,
        ColumnType::Integer => "INTEGER"@,
        ColumnType::Real => "REAL"@,
    }
}

pub open spec fn column_def(c: ColumnV) -> Seq<char> {
    c.name + " "@ + type_sql(c.ctype) + if c.primary_key {
        " PRIMARY KEY"@
    } else {
        Seq::<char>::empty()
    }
}

pub open spec fn column_defs(cs: Seq<ColumnV>) -> Seq<char>
    decreases cs.len(),
{
    if cs.len() == 0 {
        Seq::<char>::empty()
    } else if cs.len() == 1 {
        column_def(cs[0])
    } else {
        column_defs(cs.drop_last()) + ", "@ + column_def(cs.last())
    }
}

/// The one DDL statement of the schema initializer.
pub open spec fn ddl_of(table: Seq<char>, cs: Seq<ColumnV>) -> Seq<char> {
    "CREATE TABLE IF NOT EXISTS "@ + table + " ("@ + column_defs(cs) + ")"@
}

pub open spec fn column_names(cs: Seq<ColumnV>) -> Seq<char>
    decreases cs.len(),
{
    if cs.len() == 0 {
        Seq::<char>::empty()
    } else if cs.len() == 1 {
        cs[0].name
    } else {
        column_names(cs.drop_last()) + ", "@ + cs.last().name
    }
}

pub open spec fn placeholders(n: int) -> Seq<char>
    decreases n,
{
    if n <= 0 {
        Seq::<char>::empty()
    } else if n == 1 {
        "?"@
    } else {
        placeholders(n - 1) + ", ?"@
    }
}

/// The one insertion statement of the loader, binding every column
/// positionally.
pub open spec fn insert_sql_of(table: Seq<char>, cs: Seq<ColumnV>) -> Seq<char> {
    "INSERT INTO "@ + table + " ("@ + column_names(cs) + ") VALUES ("@ + placeholders(
        cs.len() as int,
    ) + ")"@
}

/// Renders one column definition, as it stands inside the DDL.
pub fn column_def_str(c: &Column) -> (s: String)
    ensures
        s@ == column_def(c@),
{
    let mut s = c.name.clone();
    s.append(" ");
    match c.ctype {
        ColumnType::Text => s.append("TEXT"),
        ColumnType::Integer => s.append("INTEGER"),
        ColumnType::Real => s.append("REAL"),
    }
    if c.primary_key {
        s.append(" PRIMARY KEY");
    }
    proof {
        assert(s@ =~= column_def(c@));
    }
    s
}

/// Builds the idempotent creation statement for a relation.
pub fn create_table_sql(table: &str, cols: &Vec<Column>) -> (s: String)
    ensures
        s@ == ddl_of(table@, cols.deep_view()),
{
    let ghost cvs = cols.deep_view();
    let mut s = "CREATE TABLE IF NOT EXISTS ".to_owned();
    s.append(table);
    s.append(" (");
    proof {
        assert(cvs.take(0) =~= Seq::<ColumnV>::empty());
        assert(s@ =~= "CREATE TABLE IF NOT EXISTS "@ + table@ + " ("@ + column_defs(cvs.take(0)));
    }
    let mut i: usize = 0;
    while i < cols.len()
        invariant
            i <= cols.len(),
            cvs == cols.deep_view(),
            s@ == "CREATE TABLE IF NOT EXISTS "@ + table@ + " ("@ + column_defs(
                cvs.take(i as int),
            ),
        decreases cols.len() - i,
    {
        if i > 0 {
            s.append(", ");
        }
        let d = column_def_str(&cols[i]);
        s.append(d.as_str());
        proof {
            assert(cvs.take(i + 1).drop_last() =~= cvs.take(i as int));
            assert(cvs.take(i + 1).last() == cvs[i as int]);
            assert(s@ =~= "CREATE TABLE IF NOT EXISTS "@ + table@ + " ("@ + column_defs(
                cvs.take(i + 1),
            ));
        }
        i += 1;
    }
    s.append(")");
    proof {
        assert(cvs.take(cols.len() as int) =~= cvs);
        assert(s@ =~= ddl_of(table@, cvs));
    }
    s
}

/// Builds the positional insertion statement for a relation.
pub fn insert_sql(table: &str, cols: &Vec<Column>) -> (s: String)
    ensures
        s@ == insert_sql_of(table@, cols.deep_view()),
{
    let ghost cvs = cols.deep_view();
    let mut s = "INSERT INTO ".to_owned();
    s.append(table);
    s.append(" (");
    proof {
        assert(cvs.take(0) =~= Seq::<ColumnV>::empty());
        assert(s@ =~= "INSERT INTO "@ + table@ + " ("@ + column_names(cvs.take(0)));
    }
    let mut i: usize = 0;
    while i < cols.len()
        invariant
            i <= cols.len(),
            cvs == cols.deep_view(),
            s@ == "INSERT INTO "@ + table@ + " ("@ + column_names(cvs.take(i as int)),
        decreases cols.len() - i,
    {
        if i > 0 {
            s.append(", ");
        }
        s.append(cols[i].name.as_str());
        proof {
            assert(cvs.take(i + 1).drop_last() =~= cvs.take(i as int));
            assert(cvs.take(i + 1).last() == cvs[i as int]);
            assert(s@ =~= "INSERT INTO "@ + table@ + " ("@ + column_names(cvs.take(i + 1)));
        }
        i += 1;
    }
    s.append(") VALUES (");
    proof {
        assert(cvs.take(cols.len() as int) =~= cvs);
        assert(s@ =~= "INSERT INTO "@ + table@ + " ("@ + column_names(cvs) + ") VALUES ("@
            + placeholders(0));
    }
    let mut j: usize = 0;
    while j < cols.len()
        invariant
            j <= cols.len(),
            cvs == cols.deep_view(),
            s@ == "INSERT INTO "@ + table@ + " ("@ + column_names(cvs) + ") VALUES ("@
                + placeholders(j as int),
        decreases cols.len() - j,
    {
        if j == 0 {
            s.append("?");
        } else {
            s.append(", ?");
        }
        proof {
            assert(s@ =~= "INSERT INTO "@ + table@ + " ("@ + column_names(cvs) + ") VALUES ("@
                + placeholders(j + 1));
        }
        j += 1;
    }
    s.append(")");
    proof {
        assert(s@ =~= insert_sql_of(table@, cvs));
    }
    s
}

/// The fixed column set of the track relation, in binding order.
pub open spec fn spec_track_schema() -> Seq<ColumnV> {
    seq![
        ColumnV { name: "track_id"@, ctype: ColumnType::Text, primary_key: true },
        ColumnV { name: "track_name"@, ctype: ColumnType::Text, primary_key: false },
        ColumnV { name: "track_number"@, ctype: ColumnType::Integer, primary_key: false },
        ColumnV { name: "track_popularity"@, ctype: ColumnType::Integer, primary_key: false },
        ColumnV { name: "explicit"@, ctype: ColumnType::Integer, primary_key: false },
        ColumnV { name: "artist_name"@, ctype: ColumnType::Text, primary_key: false },
        ColumnV { name: "artist_popularity"@, ctype: ColumnType::Integer, primary_key: false },
        ColumnV { name: "artist_followers"@, ctype: ColumnType::Integer, primary_key: false },
        ColumnV { name: "artist_genres"@, ctype: ColumnType::Text, primary_key: false },
        ColumnV { name: "album_id"@, ctype: ColumnType::Text, primary_key: false },
        ColumnV { name: "album_name"@, ctype: ColumnType::Text, primary_key: false },
        ColumnV { name: "album_release_date"@, ctype: ColumnType::Text, primary_key: false },
        ColumnV { name: "album_total_tracks"@, ctype: ColumnType::Integer, primary_key: false },
        ColumnV { name: "album_type"@, ctype: ColumnType::Text, primary_key: false },
        ColumnV { name: "track_duration_min"@, ctype: ColumnType::Real, primary_key: false },
    ]
}

/// The track relation's descriptor, constructed at startup.
pub fn track_schema() -> (v: Vec<Column>)
    ensures
        v.deep_view() == spec_track_schema(),
{
    let mut v: Vec<Column> = Vec::new();
    v.push(Column { name: "track_id".to_owned(), ctype: ColumnType::Text, primary_key: true });
    v.push(Column { name: "track_name".to_owned(), ctype: ColumnType::Text, primary_key: false });
    v.push(
        Column { name: "track_number".to_owned(), ctype: ColumnType::Integer, primary_key: false },
    );
    v.push(
        Column {
            name: "track_popularity".to_owned(),
            ctype: ColumnType::Integer,
            primary_key: false,
        },
    );
    v.push(Column { name: "explicit".to_owned(), ctype: ColumnType::Integer, primary_key: false });
    v.push(Column { name: "artist_name".to_owned(), ctype: ColumnType::Text, primary_key: false });
    v.push(
        Column {
            name: "artist_popularity".to_owned(),
            ctype: ColumnType::Integer,
            primary_key: false,
        },
    );
    v.push(
        Column {
            name: "artist_followers".to_owned(),
            ctype: ColumnType::Integer,
            primary_key: false,
        },
    );
    v.push(
        Column { name: "artist_genres".to_owned(), ctype: ColumnType::Text, primary_key: false },
    );
    v.push(Column { name: "album_id".to_owned(), ctype: ColumnType::Text, primary_key: false });
    v.push(Column { name: "album_name".to_owned(), ctype: ColumnType::Text, primary_key: false });
    v.push(
        Column {
            name: "album_release_date".to_owned(),
            ctype: ColumnType::Text,
            primary_key: false,
        },
    );
    v.push(
        Column {
            name: "album_total_tracks".to_owned(),
            ctype: ColumnType::Integer,
            primary_key: false,
        },
    );
    v.push(Column { name: "album_type".to_owned(), ctype: ColumnType::Text, primary_key: false });
    v.push(
        Column {
            name: "track_duration_min".to_owned(),
            ctype: ColumnType::Real,
            primary_key: false,
        },
    );
    proof {
        assert(v.deep_view() =~= spec_track_schema());
    }
    v
}

/// The fixed column set of the user relation. The bootstrap never populates
/// it; it is declared because it shares the same schema mechanism.
pub open spec fn spec_user_schema() -> Seq<ColumnV> {
    seq![
        ColumnV { name: "id"@, ctype: ColumnType::Integer, primary_key: true },
        ColumnV { name: "email"@, ctype: ColumnType::Text, primary_key: false },
        ColumnV { name: "password_hash"@, ctype: ColumnType::Text, primary_key: false },
        ColumnV { name: "role"@, ctype: ColumnType::Text, primary_key: false },
    ]
}

/// The user relation's descriptor.
pub fn user_schema() -> (v: Vec<Column>)
    ensures
        v.deep_view() == spec_user_schema(),
{
    let mut v: Vec<Column> = Vec::new();
    v.push(Column { name: "id".to_owned(), ctype: ColumnType::Integer, primary_key: true });
    v.push(Column { name: "email".to_owned(), ctype: ColumnType::Text, primary_key: false });
    v.push(
        Column { name: "password_hash".to_owned(), ctype: ColumnType::Text, primary_key: false },
    );
    v.push(Column { name: "role".to_owned(), ctype: ColumnType::Text, primary_key: false });
    proof {
        assert(v.deep_view() =~= spec_user_schema());
    }
    v
}

} // verus!
