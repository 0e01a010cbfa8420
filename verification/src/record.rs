//! One dataset row: the typed record, its raw-to-typed decoder, and the
//! positional column values the loader binds.
//!
//! A raw row is a sequence of column-name/text-value pairs, split into the
//! header (names) and one record (values). Fields are matched by name, not
//! by position; a missing or empty field is null, except `track_id`, which
//! must be present and non-empty.
use crate::coerce::DecodeError;
use crate::coerce::bool_from_csv;
use crate::coerce::is_real_token;
use crate::coerce::parse_i32;
use crate::coerce::real_token_ok;
use crate::coerce::spec_bool_from_csv;
use crate::coerce::spec_parse_i32;
use crate::coerce::str_eq;
use vstd::prelude::*;
use vstd::string::StrSliceExecFns;

verus! {

/// One typed column value, as bound into an insertion. Real values carry
/// their validated source text; the driver converts them when binding.
#[derive(Clone, Debug, PartialEq)]
pub enum Value {
    Null,
    Text(String),
    Int(i32),
    Real(String),
}

pub enum ValueV {
    Null,
    Text(Seq<char>),
    Int(i32),
    Real(Seq<char>),
}

impl View for Value {
    type V = ValueV;

    open spec fn view(&self) -> ValueV {
        match self {
            Value::Null => ValueV::Null,
            Value::Text(s) => ValueV::Text(s@),
            Value::Int(i) => ValueV::Int(*i),
            Value::Real(s) => ValueV::Real(s@),
        }
    }
}

impl DeepView for Value {
    type V = ValueV;

    open spec fn deep_view(&self) -> ValueV {
        self.view()
    }
}

/// Equality of two stored values, as the primary-key check compares them.
pub fn value_eq(a: &Value, b: &Value) -> (r: bool)
    ensures
        r == (a@ == b@),
{
    match (a, b) {
        (Value::Null, Value::Null) => true,
        (Value::Text(x), Value::Text(y)) => str_eq(x.as_str(), y.as_str()),
        (Value::Int(x), Value::Int(y)) => *x == *y,
        (Value::Real(x), Value::Real(y)) => str_eq(x.as_str(), y.as_str()),
        _ => false,
    }
}

/// One dataset row in typed form. Every field but `track_id` is nullable;
/// absence in the source row maps to null, never to a default. The duration
/// holds its validated decimal text, bound as a real by the driver.
#[derive(Clone, Debug, PartialEq)]
pub struct Track {
    pub track_id: String,
    pub track_name: Option<String>,
    pub track_number: Option<i32>,
    pub track_popularity: Option<i32>,
    pub explicit: Option<i32>,
    pub artist_name: Option<String>,
    pub artist_popularity: Option<i32>,
    pub artist_followers: Option<i32>,
    pub artist_genres: Option<String>,
    pub album_id: Option<String>,
    pub album_name: Option<String>,
    pub album_release_date: Option<String>,
    pub album_total_tracks: Option<i32>,
    pub album_type: Option<String>,
    pub track_duration_min: Option<String>,
}

pub ghost struct TrackV {
    pub track_id: Seq<char>,
    pub track_name: Option<Seq<char>>,
    pub track_number: Option<i32>,
    pub track_popularity: Option<i32>,
    pub explicit: Option<i32>,
    pub artist_name: Option<Seq<char>>,
    pub artist_popularity: Option<i32>,
    pub artist_followers: Option<i32>,
    pub artist_genres: Option<Seq<char>>,
    pub album_id: Option<Seq<char>>,
    pub album_name: Option<Seq<char>>,
    pub album_release_date: Option<Seq<char>>,
    pub album_total_tracks: Option<i32>,
    pub album_type: Option<Seq<char>>,
    pub track_duration_min: Option<Seq<char>>,
}

impl View for Track {
    type V = TrackV;

    open spec fn view(&self) -> TrackV {
        TrackV {
            track_id: self.track_id@,
            track_name: self.track_name.deep_view(),
            track_number: self.track_number,
            track_popularity: self.track_popularity,
            explicit: self.explicit,
            artist_name: self.artist_name.deep_view(),
            artist_popularity: self.artist_popularity,
            artist_followers: self.artist_followers,
            artist_genres: self.artist_genres.deep_view(),
            album_id: self.album_id.deep_view(),
            album_name: self.album_name.deep_view(),
            album_release_date: self.album_release_date.deep_view(),
            album_total_tracks: self.album_total_tracks,
            album_type: self.album_type.deep_view(),
            track_duration_min: self.track_duration_min.deep_view(),
        }
    }
}

// --- name-matched field lookup --------------------------------------------

/// Index of the first header entry equal to `name`, `-1` when absent.
pub open spec fn first_match(h: Seq<Seq<char>>, name: Seq<char>) -> int
    decreases h.len(),
{
    if h.len() == 0 {
        -1
    } else if h[0] == name {
        0
    } else {
        let r = first_match(h.skip(1), name);
        if r < 0 {
            -1
        } else {
            r + 1
        }
    }
}

pub proof fn lemma_first_match(h: Seq<Seq<char>>, name: Seq<char>)
    ensures
        ({
            let r = first_match(h, name);
            &&& r >= 0 ==> 0 <= r < h.len() && h[r] == name && (forall|k: int|
                0 <= k < r ==> h[k] != name)
            &&& r < 0 ==> forall|k: int| 0 <= k < h.len() ==> h[k] != name
        }),
    decreases h.len(),
{
    if h.len() == 0 {
    } else if h[0] == name {
    } else {
        lemma_first_match(h.skip(1), name);
        let r1 = first_match(h.skip(1), name);
        if r1 >= 0 {
            assert(h.skip(1)[r1] == h[r1 + 1]);
            assert forall|k: int| 0 <= k < r1 + 1 implies h[k] != name by {
                if k > 0 {
                    assert(h.skip(1)[k - 1] == h[k]);
                }
            }
        } else {
            assert forall|k: int| 0 <= k < h.len() implies h[k] != name by {
                if k > 0 {
                    assert(h.skip(1)[k - 1] == h[k]);
                }
            }
        }
    }
}

/// The named column's text in a row: the value under the first header entry
/// of that name, or nothing when the column is absent, the row is too short,
/// or the value is empty.
pub open spec fn spec_field(h: Seq<Seq<char>>, row: Seq<Seq<char>>, name: Seq<char>) -> Option<
    Seq<char>,
> {
    let i = first_match(h, name);
    if 0 <= i < row.len() && row[i].len() > 0 {
        Some(row[i])
    } else {
        None
    }
}

/// Finds the named column's non-empty text in a row, header-matched.
pub fn field_text(header: &Vec<String>, row: &Vec<String>, name: &str) -> (r: Option<String>)
    ensures
        r.deep_view() == spec_field(header.deep_view(), row.deep_view(), name@),
{
    let ghost h = header.deep_view();
    proof {
        lemma_first_match(h, name@);
    }
    let mut j: usize = 0;
    while j < header.len()
        invariant
            j <= header.len(),
            h == header.deep_view(),
            forall|k: int| 0 <= k < j ==> h[k] != name@,
        decreases header.len() - j,
    {
        if str_eq(header[j].as_str(), name) {
            proof {
                lemma_first_match(h, name@);
                assert(h[j as int] == name@);
                let r = first_match(h, name@);
                if r < 0 {
                    assert(h[j as int] != name@);
                    assert(false);
                } else if r < j {
                    assert(h[r] != name@);
                    assert(false);
                } else if r > j {
                    assert(h[j as int] != name@);
                    assert(false);
                }
                assert(r == j);
            }
            if j < row.len() {
                let v = &row[j];
                if v.as_str().unicode_len() > 0 {
                    return Some(v.clone());
                } else {
                    return None;
                }
            } else {
                return None;
            }
        }
        j += 1;
    }
    proof {
        let r = first_match(h, name@);
        if r >= 0 {
            assert(h[r] == name@);
        }
    }
    None
}

// --- per-field coercions ----------------------------------------------------

/// Coercion of one integer column: absent is null, decimal text is its
/// value, anything else fails.
pub open spec fn spec_opt_int(f: Option<Seq<char>>) -> Result<Option<i32>, DecodeError> {
    match f {
        None => Ok(None),
        Some(t) => match spec_parse_i32(t) {
            Some(v) => Ok(Some(v)),
            None => Err(DecodeError::InvalidInteger),
        },
    }
}

pub fn opt_int(f: &Option<String>) -> (r: Result<Option<i32>, DecodeError>)
    ensures
        r == spec_opt_int(f.deep_view()),
{
    match f {
        None => Ok(None),
        Some(t) => match parse_i32(t.as_str()) {
            Some(v) => Ok(Some(v)),
            None => Err(DecodeError::InvalidInteger),
        },
    }
}

/// Coercion of one real column: absent is null, decimal-number text is kept
/// verbatim, anything else fails.
pub open spec fn spec_opt_real(f: Option<Seq<char>>) -> Result<
    Option<Seq<char>>,
    DecodeError,
> {
    match f {
        None => Ok(None),
        Some(t) => if is_real_token(t) {
            Ok(Some(t))
        } else {
            Err(DecodeError::InvalidReal)
        },
    }
}

pub fn opt_real(f: Option<String>) -> (r: Result<Option<String>, DecodeError>)
    ensures
        match r {
            Ok(o) => spec_opt_real(f.deep_view()) == Ok::<Option<Seq<char>>, DecodeError>(
                o.deep_view(),
            ),
            Err(e) => spec_opt_real(f.deep_view()) == Err::<Option<Seq<char>>, DecodeError>(e),
        },
{
    match f {
        None => Ok(None),
        Some(t) => if real_token_ok(t.as_str()) {
            Ok(Some(t))
        } else {
            Err(DecodeError::InvalidReal)
        },
    }
}

// --- the row decoder --------------------------------------------------------

/// What decoding one raw row yields: the typed record, or the first
/// coercion failure in column order. Text columns pass through verbatim;
/// the release date is opaque text and is never parsed as a calendar date.
pub open spec fn spec_decode(h: Seq<Seq<char>>, row: Seq<Seq<char>>) -> Result<
    TrackV,
    DecodeError,
> {
    match spec_field(h, row, "track_id"@) {
        None => Err(DecodeError::MissingTrackId),
        Some(id) => {
            let f_number = spec_opt_int(spec_field(h, row, "track_number"@));
            let f_popularity = spec_opt_int(spec_field(h, row, "track_popularity"@));
            let f_explicit = spec_bool_from_csv(spec_field(h, row, "explicit"@));
            let f_artist_pop = spec_opt_int(spec_field(h, row, "artist_popularity"@));
            let f_followers = spec_opt_int(spec_field(h, row, "artist_followers"@));
            let f_total = spec_opt_int(spec_field(h, row, "album_total_tracks"@));
            let f_duration = spec_opt_real(spec_field(h, row, "track_duration_min"@));
            if f_number is Err {
                Err(f_number->Err_0)
            } else if f_popularity is Err {
                Err(f_popularity->Err_0)
            } else if f_explicit is Err {
                Err(f_explicit->Err_0)
            } else if f_artist_pop is Err {
                Err(f_artist_pop->Err_0)
            } else if f_followers is Err {
                Err(f_followers->Err_0)
            } else if f_total is Err {
                Err(f_total->Err_0)
            } else if f_duration is Err {
                Err(f_duration->Err_0)
            } else {
                Ok(
                    TrackV {
                        track_id: id,
                        track_name: spec_field(h, row, "track_name"@),
                        track_number: f_number->Ok_0,
                        track_popularity: f_popularity->Ok_0,
                        explicit: f_explicit->Ok_0,
                        artist_name: spec_field(h, row, "artist_name"@),
                        artist_popularity: f_artist_pop->Ok_0,
                        artist_followers: f_followers->Ok_0,
                        artist_genres: spec_field(h, row, "artist_genres"@),
                        album_id: spec_field(h, row, "album_id"@),
                        album_name: spec_field(h, row, "album_name"@),
                        album_release_date: spec_field(h, row, "album_release_date"@),
                        album_total_tracks: f_total->Ok_0,
                        album_type: spec_field(h, row, "album_type"@),
                        track_duration_min: f_duration->Ok_0,
                    },
                )
            }
        },
    }
}

/// Decodes one raw row into a typed record, or fails on the first field
/// whose coercion is rejected.
pub fn decode_row(header: &Vec<String>, row: &Vec<String>) -> (r: Result<Track, DecodeError>)
    ensures
        match r {
            Ok(t) => spec_decode(header.deep_view(), row.deep_view()) == Ok::<TrackV, DecodeError>(
                t@,
            ),
            Err(e) => spec_decode(header.deep_view(), row.deep_view()) == Err::<
                TrackV,
                DecodeError,
            >(e),
        },
{
    let track_id = match field_text(header, row, "track_id") {
        Some(s) => s,
        None => {
            return Err(DecodeError::MissingTrackId);
        },
    };
    let track_number = match opt_int(&field_text(header, row, "track_number")) {
        Ok(v) => v,
        Err(e) => {
            return Err(e);
        },
    };
    let track_popularity = match opt_int(&field_text(header, row, "track_popularity")) {
        Ok(v) => v,
        Err(e) => {
            return Err(e);
        },
    };
    let explicit = match bool_from_csv(&field_text(header, row, "explicit")) {
        Ok(v) => v,
        Err(e) => {
            return Err(e);
        },
    };
    let artist_popularity = match opt_int(&field_text(header, row, "artist_popularity")) {
        Ok(v) => v,
        Err(e) => {
            return Err(e);
        },
    };
    let artist_followers = match opt_int(&field_text(header, row, "artist_followers")) {
        Ok(v) => v,
        Err(e) => {
            return Err(e);
        },
    };
    let album_total_tracks = match opt_int(&field_text(header, row, "album_total_tracks")) {
        Ok(v) => v,
        Err(e) => {
            return Err(e);
        },
    };
    let track_duration_min = match opt_real(field_text(header, row, "track_duration_min")) {
        Ok(v) => v,
        Err(e) => {
            return Err(e);
        },
    };
    Ok(
        Track {
            track_id,
            track_name: field_text(header, row, "track_name"),
            track_number,
            track_popularity,
            explicit,
            artist_name: field_text(header, row, "artist_name"),
            artist_popularity,
            artist_followers,
            artist_genres: field_text(header, row, "artist_genres"),
            album_id: field_text(header, row, "album_id"),
            album_name: field_text(header, row, "album_name"),
            album_release_date: field_text(header, row, "album_release_date"),
            album_total_tracks,
            album_type: field_text(header, row, "album_type"),
            track_duration_min,
        },
    )
}

// --- binding order ----------------------------------------------------------

pub open spec fn opt_text_value(o: Option<Seq<char>>) -> ValueV {
    match o {
        None => ValueV::Null,
        Some(s) => ValueV::Text(s),
    }
}

pub open spec fn opt_int_value(o: Option<i32>) -> ValueV {
    match o {
        None => ValueV::Null,
        Some(i) => ValueV::Int(i),
    }
}

pub open spec fn opt_real_value(o: Option<Seq<char>>) -> ValueV {
    match o {
        None => ValueV::Null,
        Some(s) => ValueV::Real(s),
    }
}

/// The column values of one record, in the relation's binding order.
pub open spec fn track_values(t: TrackV) -> Seq<ValueV> {
    seq![
        ValueV::Text(t.track_id),
        opt_text_value(t.track_name),
        opt_int_value(t.track_number),
        opt_int_value(t.track_popularity),
        opt_int_value(t.explicit),
        opt_text_value(t.artist_name),
        opt_int_value(t.artist_popularity),
        opt_int_value(t.artist_followers),
        opt_text_value(t.artist_genres),
        opt_text_value(t.album_id),
        opt_text_value(t.album_name),
        opt_text_value(t.album_release_date),
        opt_int_value(t.album_total_tracks),
        opt_text_value(t.album_type),
        opt_real_value(t.track_duration_min),
    ]
}

impl Track {
    /// The record's column values, positionally matching the track schema.
    #[verifier::rlimit(60)]
    pub fn bind_values(&self) -> (v: Vec<Value>)
        ensures
            v.deep_view() == track_values(self@),
    {
        let mut v: Vec<Value> = Vec::new();
        v.push(Value::Text(self.track_id.clone()));
        v.push(
            match &self.track_name {
                Some(s) => Value::Text(s.clone()),
                None => Value::Null,
            },
        );
        v.push(
            match self.track_number {
                Some(i) => Value::Int(i),
                None => Value::Null,
            },
        );
        v.push(
            match self.track_popularity {
                Some(i) => Value::Int(i),
                None => Value::Null,
            },
        );
        v.push(
            match self.explicit {
                Some(i) => Value::Int(i),
                None => Value::Null,
            },
        );
        v.push(
            match &self.artist_name {
                Some(s) => Value::Text(s.clone()),
                None => Value::Null,
            },
        );
        v.push(
            match self.artist_popularity {
                Some(i) => Value::Int(i),
                None => Value::Null,
            },
        );
        v.push(
            match self.artist_followers {
                Some(i) => Value::Int(i),
                None => Value::Null,
            },
        );
        v.push(
            match &self.artist_genres {
                Some(s) => Value::Text(s.clone()),
                None => Value::Null,
            },
        );
        v.push(
            match &self.album_id {
                Some(s) => Value::Text(s.clone()),
                None => Value::Null,
            },
        );
        v.push(
            match &self.album_name {
                Some(s) => Value::Text(s.clone()),
                None => Value::Null,
            },
        );
        v.push(
            match &self.album_release_date {
                Some(s) => Value::Text(s.clone()),
                None => Value::Null,
            },
        );
        v.push(
            match self.album_total_tracks {
                Some(i) => Value::Int(i),
                None => Value::Null,
            },
        );
        v.push(
            match &self.album_type {
                Some(s) => Value::Text(s.clone()),
                None => Value::Null,
            },
        );
        v.push(
            match &self.track_duration_min {
                Some(s) => Value::Real(s.clone()),
                None => Value::Null,
            },
        );
        proof {
            assert(v.deep_view() =~= track_values(self@));
        }
        v
    }
}

/// Nullability: an absent or empty optional field decodes to null in its
/// column of the bound values; a row without a non-empty `track_id` is
/// rejected outright, never inserted.
pub proof fn lemma_nullability(h: Seq<Seq<char>>, row: Seq<Seq<char>>)
    ensures
        spec_field(h, row, "track_id"@) is None ==> spec_decode(h, row) == Err::<
            TrackV,
            DecodeError,
        >(DecodeError::MissingTrackId),
        spec_decode(h, row) is Ok ==> ({
            let t = spec_decode(h, row)->Ok_0;
            let vals = track_values(t);
            &&& spec_field(h, row, "track_name"@) is None ==> vals[1] == ValueV::Null
            &&& spec_field(h, row, "track_number"@) is None ==> vals[2] == ValueV::Null
            &&& spec_field(h, row, "track_popularity"@) is None ==> vals[3] == ValueV::Null
            &&& spec_field(h, row, "explicit"@) is None ==> vals[4] == ValueV::Null
            &&& spec_field(h, row, "artist_name"@) is None ==> vals[5] == ValueV::Null
            &&& spec_field(h, row, "artist_popularity"@) is None ==> vals[6] == ValueV::Null
            &&& spec_field(h, row, "artist_followers"@) is None ==> vals[7] == ValueV::Null
            &&& spec_field(h, row, "artist_genres"@) is None ==> vals[8] == ValueV::Null
            &&& spec_field(h, row, "album_id"@) is None ==> vals[9] == ValueV::Null
            &&& spec_field(h, row, "album_name"@) is None ==> vals[10] == ValueV::Null
            &&& spec_field(h, row, "album_release_date"@) is None ==> vals[11] == ValueV::Null
            &&& spec_field(h, row, "album_total_tracks"@) is None ==> vals[12] == ValueV::Null
            &&& spec_field(h, row, "album_type"@) is None ==> vals[13] == ValueV::Null
            &&& spec_field(h, row, "track_duration_min"@) is None ==> vals[14] == ValueV::Null
        }),
{
}

/// One account row of the user relation. The bootstrap declares its schema
/// but never populates it; provisioning belongs to the external resource
/// layer.
pub struct User {
    pub id: Option<i64>,
    pub email: String,
    pub password_hash: String,
    pub role: String,
}

} // verus!
