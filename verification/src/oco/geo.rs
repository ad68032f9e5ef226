//! The soundings of one instrument: where and when each was taken, its
//! quality, and the file it came from.

use vstd::prelude::*;
use crate::column::I64Column;
use crate::column::U64Column;
use crate::column::U8Column;
use crate::column::i64_column_concat;
use crate::column::i64_column_from_vec;
use crate::column::i64_column_get;
use crate::column::i64_column_len;
use crate::column::max_column_len;
use crate::column::u64_column_concat;
use crate::column::u64_column_from_vec;
use crate::column::u64_column_get;
use crate::column::u64_column_len;
use crate::column::u8_column_concat;
use crate::column::u8_column_from_vec;
use crate::column::u8_column_get;
use crate::column::u8_column_len;
use crate::error::MatchupError;
use crate::utils::filter_by_quality;
use crate::utils::good_rows;
use crate::utils::select;

verus! {

/// The largest number of files that one set of soundings can come from: a
/// file index is a single byte.
pub const MAX_LITE_FILES: usize = 256;

/// The soundings of one instrument, read from one or more files.
///
/// There are six columns with one entry per sounding. Times are in
/// milliseconds since 1970-01-01 00:00:00, longitudes in millionths of a
/// degree east and latitudes in millionths of a degree north.
pub struct OcoGeo {
    lite_files: Vec<String>,
    file_index: U8Column,
    sounding_id: U64Column,
    timestamp: I64Column,
    longitude: I64Column,
    latitude: I64Column,
    quality: U8Column,
}

/// The mathematical content of an [`OcoGeo`].
pub struct OcoGeoView {
    /// The files that the soundings came from.
    pub lite_files: Seq<String>,
    /// For each sounding, the position of its file in `lite_files`.
    pub file_index: Seq<u8>,
    /// For each sounding, its identifier.
    pub sounding_id: Seq<u64>,
    /// For each sounding, its time.
    pub timestamp: Seq<i64>,
    /// For each sounding, its longitude.
    pub longitude: Seq<i64>,
    /// For each sounding, its latitude.
    pub latitude: Seq<i64>,
    /// For each sounding, its quality flag; 0 is good.
    pub quality: Seq<u8>,
}

impl OcoGeoView {
    /// The number of soundings.
    pub open spec fn len(self) -> nat {
        self.sounding_id.len()
    }

    /// The six columns have one length, which an array can have, and every
    /// file index points into the list of files, which a byte can index.
    pub open spec fn wf(self) -> bool {
        &&& self.file_index.len() == self.len()
        &&& self.timestamp.len() == self.len()
        &&& self.longitude.len() == self.len()
        &&& self.latitude.len() == self.len()
        &&& self.quality.len() == self.len()
        &&& self.len() <= max_column_len()
        &&& self.lite_files.len() <= MAX_LITE_FILES
        &&& forall|i: int| 0 <= i < self.len() ==> (#[trigger] self.file_index[i]) < self.lite_files.len()
    }

    /// The set without soundings and without files.
    pub open spec fn empty() -> OcoGeoView {
        OcoGeoView {
            lite_files: Seq::empty(),
            file_index: Seq::empty(),
            sounding_id: Seq::empty(),
            timestamp: Seq::empty(),
            longitude: Seq::empty(),
            latitude: Seq::empty(),
            quality: Seq::empty(),
        }
    }

    /// The soundings of `self` followed by those of `other`, whose file
    /// indices are raised by the number of files of `self`.
    pub open spec fn extended(self, other: OcoGeoView) -> OcoGeoView {
        OcoGeoView {
            lite_files: self.lite_files + other.lite_files,
            file_index: self.file_index + other.file_index.map_values(
                |x: u8| (x + self.lite_files.len()) as u8,
            ),
            sounding_id: self.sounding_id + other.sounding_id,
            timestamp: self.timestamp + other.timestamp,
            longitude: self.longitude + other.longitude,
            latitude: self.latitude + other.latitude,
            quality: self.quality + other.quality,
        }
    }
}

/// Extending the empty set by a set gives that set.
pub proof fn lemma_extend_empty(geo: OcoGeoView)
    requires
        geo.wf(),
    ensures
        OcoGeoView::empty().extended(geo) == geo,
{
    let joined = OcoGeoView::empty().extended(geo);
    assert(joined.lite_files =~= geo.lite_files);
    assert(joined.file_index =~= geo.file_index);
    assert(joined.sounding_id =~= geo.sounding_id);
    assert(joined.timestamp =~= geo.timestamp);
    assert(joined.longitude =~= geo.longitude);
    assert(joined.latitude =~= geo.latitude);
    assert(joined.quality =~= geo.quality);
}

/// Extending keeps every sounding with its file: a sounding of the first set
/// keeps its file index, and a sounding of the second set points, by its new
/// file index, to the file that it pointed to before.
pub proof fn lemma_extend_keeps_files(a: OcoGeoView, b: OcoGeoView, i: int)
    requires
        a.wf(),
        b.wf(),
        a.lite_files.len() + b.lite_files.len() <= MAX_LITE_FILES,
        a.len() + b.len() <= max_column_len(),
        0 <= i < a.len() + b.len(),
    ensures
        a.extended(b).wf(),
        i < a.len() ==> a.extended(b).lite_files[a.extended(b).file_index[i] as int]
            == a.lite_files[a.file_index[i] as int],
        i >= a.len() ==> a.extended(b).lite_files[a.extended(b).file_index[i] as int]
            == b.lite_files[b.file_index[i - a.len()] as int],
{
    let joined = a.extended(b);
    assert forall|k: int| 0 <= k < joined.len() implies (#[trigger] joined.file_index[k])
        < joined.lite_files.len() by {
        if k < a.len() {
            assert(a.file_index[k] < a.lite_files.len());
        } else {
            assert(b.file_index[k - a.len()] < b.lite_files.len());
        }
    }
    if i < a.len() {
        assert(a.file_index[i] < a.lite_files.len());
    } else {
        assert(b.file_index[i - a.len()] < b.lite_files.len());
    }
}

/// The rows of a file that are loaded: all `n` of them, or those among them
/// whose quality flag is 0 (good).
pub open spec fn loaded_rows(quality: Seq<u8>, n: nat, flag0_only: bool) -> Seq<int> {
    if flag0_only {
        good_rows(quality, n)
    } else {
        Seq::new(n, |i: int| i)
    }
}

/// The columns of one file can be loaded: they have one length, and an array
/// can have that length.
pub open spec fn loadable(
    sounding_id: Seq<u64>,
    timestamp: Seq<i64>,
    longitude: Seq<i64>,
    latitude: Seq<i64>,
    quality: Seq<u8>,
) -> bool {
    &&& timestamp.len() == sounding_id.len()
    &&& longitude.len() == sounding_id.len()
    &&& latitude.len() == sounding_id.len()
    &&& quality.len() == sounding_id.len()
    &&& sounding_id.len() <= max_column_len()
}

/// The soundings of one file: the loaded rows of every column, all with file
/// index 0.
pub open spec fn loaded(
    lite_file: String,
    sounding_id: Seq<u64>,
    timestamp: Seq<i64>,
    longitude: Seq<i64>,
    latitude: Seq<i64>,
    quality: Seq<u8>,
    flag0_only: bool,
) -> OcoGeoView {
    let rows = loaded_rows(quality, sounding_id.len(), flag0_only);
    OcoGeoView {
        lite_files: seq![lite_file],
        file_index: Seq::new(rows.len(), |i: int| 0u8),
        sounding_id: select(sounding_id, rows),
        timestamp: select(timestamp, rows),
        longitude: select(longitude, rows),
        latitude: select(latitude, rows),
        quality: select(quality, rows),
    }
}

/// With the quality filter, every loaded sounding is of good quality, and
/// the loaded soundings are as many as the file has rows with flag 0.
pub proof fn lemma_loaded_quality(
    lite_file: String,
    sounding_id: Seq<u64>,
    timestamp: Seq<i64>,
    longitude: Seq<i64>,
    latitude: Seq<i64>,
    quality: Seq<u8>,
)
    requires
        loadable(sounding_id, timestamp, longitude, latitude, quality),
    ensures
        forall|i: int|
            0 <= i < loaded(lite_file, sounding_id, timestamp, longitude, latitude, quality, true).len()
                ==> #[trigger] loaded(
                lite_file,
                sounding_id,
                timestamp,
                longitude,
                latitude,
                quality,
                true,
            ).quality[i] == 0,
        loaded(lite_file, sounding_id, timestamp, longitude, latitude, quality, true).wf(),
        loaded(lite_file, sounding_id, timestamp, longitude, latitude, quality, false).wf(),
{
    crate::utils::lemma_good_rows(quality, sounding_id.len());
    let rows = good_rows(quality, sounding_id.len());
    let kept = loaded(lite_file, sounding_id, timestamp, longitude, latitude, quality, true);
    assert forall|i: int| 0 <= i < kept.len() implies #[trigger] kept.quality[i] == 0 by {
        assert(kept.quality[i] == quality[rows[i]]);
    }
}

/// The values of a column kept by the quality filter, or all of them.
fn keep<T: Copy>(arr: Vec<T>, flags: &Vec<u8>, flag0_only: bool) -> (out: Vec<T>)
    requires
        arr@.len() == flags@.len(),
    ensures
        out@ == select(arr@, loaded_rows(flags@, flags@.len(), flag0_only)),
{
    if flag0_only {
        filter_by_quality(&arr, flags)
    } else {
        assert(arr@ =~= select(arr@, loaded_rows(flags@, flags@.len(), flag0_only)));
        arr
    }
}

/// A list of `n` zeros.
fn zeros(n: usize) -> (out: Vec<u8>)
    ensures
        out@ == Seq::new(n as nat, |i: int| 0u8),
{
    let mut out: Vec<u8> = Vec::new();
    let mut i: usize = 0;
    while i < n
        invariant
            i <= n,
            out@ == Seq::new(i as nat, |i: int| 0u8),
        decreases n - i,
    {
        out.push(0);
        assert(out@ =~= Seq::new((i + 1) as nat, |i: int| 0u8));
        i = i + 1;
    }
    out
}

/// The file indices of a set of soundings, each raised by `by`.
fn rebased(column: &U8Column, by: usize) -> (out: Vec<u8>)
    requires
        forall|i: int| 0 <= i < column@.len() ==> (#[trigger] column@[i]) + by <= u8::MAX,
    ensures
        out@ == column@.map_values(|x: u8| (x + by) as u8),
{
    let n = u8_column_len(column);
    let mut out: Vec<u8> = Vec::new();
    let mut i: usize = 0;
    while i < n
        invariant
            i <= n,
            n == column@.len(),
            forall|i: int| 0 <= i < column@.len() ==> (#[trigger] column@[i]) + by <= u8::MAX,
            out@ == column@.take(i as int).map_values(|x: u8| (x + by) as u8),
        decreases n - i,
    {
        let x = u8_column_get(column, i);
        assert(column@[i as int] + by <= u8::MAX);
        out.push(x + (by as u8));
        assert(out@ =~= column@.take(i as int + 1).map_values(|x: u8| (x + by) as u8));
        i = i + 1;
    }
    assert(column@.take(n as int) =~= column@);
    out
}

impl View for OcoGeo {
    type V = OcoGeoView;

    closed spec fn view(&self) -> OcoGeoView {
        OcoGeoView {
            lite_files: self.lite_files@,
            file_index: self.file_index@,
            sounding_id: self.sounding_id@,
            timestamp: self.timestamp@,
            longitude: self.longitude@,
            latitude: self.latitude@,
            quality: self.quality@,
        }
    }
}

impl OcoGeo {
    /// The set is well formed: see [`OcoGeoView::wf`].
    pub open spec fn wf(&self) -> bool {
        self@.wf()
    }

    /// The soundings of one file, from the five columns read from it.
    ///
    /// With `flag0_only`, only the soundings of good quality are kept: the
    /// rows whose quality flag is not 0 are dropped from every column alike.
    /// Every sounding gets file index 0.
    ///
    /// Fails with a `NetcdfShapeError` that names the file if and only if the
    /// columns differ in length or are longer than an array can be.
    pub fn load_lite_file(
        lite_file: String,
        sounding_id: Vec<u64>,
        timestamp: Vec<i64>,
        longitude: Vec<i64>,
        latitude: Vec<i64>,
        quality: Vec<u8>,
        flag0_only: bool,
    ) -> (r: Result<OcoGeo, MatchupError>)
        ensures
            r is Ok <==> loadable(sounding_id@, timestamp@, longitude@, latitude@, quality@),
            r matches Ok(geo) ==> geo.wf() && geo@ == loaded(
                lite_file,
                sounding_id@,
                timestamp@,
                longitude@,
                latitude@,
                quality@,
                flag0_only,
            ),
            r matches Err(e) ==> e matches MatchupError::NetcdfShapeError { file, .. } && file
                == Some(lite_file),
    {
        let n = sounding_id.len();
        if timestamp.len() != n || longitude.len() != n || latitude.len() != n || quality.len() != n
            || n > isize::MAX as usize {
            return Err(
                MatchupError::from_shape_error(
                    "the columns of a file have one length, which an array can have".to_owned(),
                    lite_file,
                    "sounding_id".to_owned(),
                ),
            );
        }
        let ghost rows = loaded_rows(quality@, n as nat, flag0_only);
        proof {
            if flag0_only {
                crate::utils::lemma_good_rows(quality@, n as nat);
            }
        }
        let sounding_id = keep(sounding_id, &quality, flag0_only);
        let timestamp = keep(timestamp, &quality, flag0_only);
        let longitude = keep(longitude, &quality, flag0_only);
        let latitude = keep(latitude, &quality, flag0_only);
        let kept_quality = if flag0_only {
            filter_by_quality(&quality, &quality)
        } else {
            assert(quality@ =~= select(quality@, rows));
            quality
        };
        let file_index = zeros(sounding_id.len());
        let mut lite_files: Vec<String> = Vec::new();
        lite_files.push(lite_file);
        assert(lite_files@ =~= seq![lite_file]);
        let geo = OcoGeo {
            lite_files,
            file_index: u8_column_from_vec(file_index),
            sounding_id: u64_column_from_vec(sounding_id),
            timestamp: i64_column_from_vec(timestamp),
            longitude: i64_column_from_vec(longitude),
            latitude: i64_column_from_vec(latitude),
            quality: u8_column_from_vec(kept_quality),
        };
        Ok(geo)
    }

    /// The soundings of `self` followed by those of `other`.
    ///
    /// The files of `other` are listed behind those of `self`, and the file
    /// indices of its soundings are raised by the number of files of `self`,
    /// so that they point to the same files as before. The two sets together
    /// may come from at most 256 files, and hold at most as many soundings as
    /// an array can hold.
    pub fn extend(self, other: OcoGeo) -> (r: OcoGeo)
        requires
            self.wf(),
            other.wf(),
            self@.lite_files.len() + other@.lite_files.len() <= MAX_LITE_FILES,
            self@.len() + other@.len() <= max_column_len(),
        ensures
            r.wf(),
            r@ == self@.extended(other@),
    {
        let curr_n_files = self.lite_files.len();
        let mut lite_files = self.lite_files;
        let mut other_files = other.lite_files;
        let ghost before = lite_files@;
        let ghost added = other_files@;
        lite_files.append(&mut other_files);
        assert(lite_files@ =~= before + added);
        let shifted = u8_column_from_vec(rebased(&other.file_index, curr_n_files));
        let file_index = match u8_column_concat(&self.file_index, &shifted) {
            Ok(c) => c,
            Err(_) => vstd::pervasive::unreached(),
        };
        let sounding_id = match u64_column_concat(&self.sounding_id, &other.sounding_id) {
            Ok(c) => c,
            Err(_) => vstd::pervasive::unreached(),
        };
        let timestamp = match i64_column_concat(&self.timestamp, &other.timestamp) {
            Ok(c) => c,
            Err(_) => vstd::pervasive::unreached(),
        };
        let longitude = match i64_column_concat(&self.longitude, &other.longitude) {
            Ok(c) => c,
            Err(_) => vstd::pervasive::unreached(),
        };
        let latitude = match i64_column_concat(&self.latitude, &other.latitude) {
            Ok(c) => c,
            Err(_) => vstd::pervasive::unreached(),
        };
        let quality = match u8_column_concat(&self.quality, &other.quality) {
            Ok(c) => c,
            Err(_) => vstd::pervasive::unreached(),
        };
        OcoGeo { lite_files, file_index, sounding_id, timestamp, longitude, latitude, quality }
    }

    /// The soundings of `self` followed by those of `other`, as `extend` joins
    /// them, where the two sets can be joined.
    ///
    /// Fails with an `InternalError` if and only if the two sets together
    /// come from more than 256 files or hold more soundings than an array can
    /// hold.
    pub fn try_extend(self, other: OcoGeo) -> (r: Result<OcoGeo, MatchupError>)
        requires
            self.wf(),
            other.wf(),
        ensures
            r is Ok <==> self@.lite_files.len() + other@.lite_files.len() <= MAX_LITE_FILES
                && self@.len() + other@.len() <= max_column_len(),
            r matches Ok(geo) ==> geo.wf() && geo@ == self@.extended(other@),
            r matches Err(e) ==> e is InternalError,
    {
        let n_self = u64_column_len(&self.sounding_id);
        let n_other = u64_column_len(&other.sounding_id);
        if self.lite_files.len() > MAX_LITE_FILES - other.lite_files.len() {
            return Err(MatchupError::internal("one byte cannot index more than 256 lite files"));
        }
        if n_self > (isize::MAX as usize) - n_other {
            return Err(MatchupError::internal("too many soundings for one array"));
        }
        Ok(self.extend(other))
    }

    /// The number of soundings, as a position in the columns can count them.
    pub fn len(&self) -> (n: usize)
        ensures
            n == self@.len(),
    {
        u64_column_len(&self.sounding_id)
    }

    /// The number of soundings.
    pub fn num_soundings(&self) -> (n: u64)
        ensures
            n == self@.longitude.len(),
    {
        i64_column_len(&self.longitude) as u64
    }

    /// The files that the soundings came from.
    pub fn lite_files(&self) -> (files: &Vec<String>)
        ensures
            files@ == self@.lite_files,
    {
        &self.lite_files
    }

    /// The file index of sounding `i`.
    pub fn file_index_at(&self, i: usize) -> (x: u8)
        requires
            i < self@.file_index.len(),
        ensures
            x == self@.file_index[i as int],
    {
        u8_column_get(&self.file_index, i)
    }

    /// The identifier of sounding `i`.
    pub fn sounding_id_at(&self, i: usize) -> (x: u64)
        requires
            i < self@.sounding_id.len(),
        ensures
            x == self@.sounding_id[i as int],
    {
        u64_column_get(&self.sounding_id, i)
    }

    /// The time of sounding `i`.
    pub fn timestamp_at(&self, i: usize) -> (x: i64)
        requires
            i < self@.timestamp.len(),
        ensures
            x == self@.timestamp[i as int],
    {
        i64_column_get(&self.timestamp, i)
    }

    /// The longitude of sounding `i`.
    pub fn longitude_at(&self, i: usize) -> (x: i64)
        requires
            i < self@.longitude.len(),
        ensures
            x == self@.longitude[i as int],
    {
        i64_column_get(&self.longitude, i)
    }

    /// The latitude of sounding `i`.
    pub fn latitude_at(&self, i: usize) -> (x: i64)
        requires
            i < self@.latitude.len(),
        ensures
            x == self@.latitude[i as int],
    {
        i64_column_get(&self.latitude, i)
    }

    /// The quality flag of sounding `i`.
    pub fn quality_at(&self, i: usize) -> (x: u8)
        requires
            i < self@.quality.len(),
        ensures
            x == self@.quality[i as int],
    {
        u8_column_get(&self.quality, i)
    }
}

impl Default for OcoGeo {
    /// The set without soundings and without files.
    fn default() -> (r: OcoGeo)
        ensures
            r.wf(),
            r@ == OcoGeoView::empty(),
    {
        OcoGeo {
            lite_files: Vec::new(),
            file_index: u8_column_from_vec(Vec::new()),
            sounding_id: u64_column_from_vec(Vec::new()),
            timestamp: i64_column_from_vec(Vec::new()),
            longitude: i64_column_from_vec(Vec::new()),
            latitude: i64_column_from_vec(Vec::new()),
            quality: u8_column_from_vec(Vec::new()),
        }
    }
}

} // verus!
