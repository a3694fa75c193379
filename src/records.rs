//! The records a document holds: mods, maps, benchmark sets, and the small
//! enums that select and guard the store's operations.
use vstd::prelude::*;

verus! {

/// A versioned software component, identified by its SHA-1 content hash.
///
/// `file_name` is local information only: it is never part of the stored form.
#[derive(Debug, Eq)]
pub struct Mod {
    pub name: String,
    pub file_name: String,
    pub version: String,
    pub sha1: String,
}

/// Two mods are the same mod when their hashes agree and are not empty.
pub open spec fn mod_same(a: Mod, b: Mod) -> bool {
    a.sha1@ == b.sha1@ && a.sha1@.len() > 0
}

impl Mod {
    pub fn new(name: &str, file_name: &str, version: &str, hash: &str) -> (r: Mod)
        ensures
            r.name@ == name@,
            r.file_name@ == file_name@,
            r.version@ == version@,
            r.sha1@ == hash@,
    {
        Mod {
            name: name.to_owned(),
            file_name: file_name.to_owned(),
            version: version.to_owned(),
            sha1: hash.to_owned(),
        }
    }
}

impl Clone for Mod {
    fn clone(&self) -> (r: Self)
        ensures
            r == *self,
    {
        Mod {
            name: self.name.clone(),
            file_name: self.file_name.clone(),
            version: self.version.clone(),
            sha1: self.sha1.clone(),
        }
    }
}

impl PartialEq for Mod {
    fn eq(&self, cmp: &Self) -> (r: bool)
        ensures
            r == mod_same(*self, *cmp),
    {
        self.sha1 == cmp.sha1 && !self.sha1.as_str().is_empty()
    }
}

impl vstd::std_specs::cmp::PartialEqSpecImpl for Mod {
    open spec fn obeys_eq_spec() -> bool {
        true
    }

    open spec fn eq_spec(&self, cmp: &Mod) -> bool {
        mod_same(*self, *cmp)
    }
}

/// A game map, identified by its SHA-256 content hash.
///
/// `path` is local information only: it is never part of the stored form.
#[derive(Debug, Eq)]
pub struct GameMap {
    pub name: String,
    pub path: String,
    pub sha256: String,
    pub download_link: String,
}

/// Two maps are the same map when their hashes agree, empty hashes included.
pub open spec fn map_same(a: GameMap, b: GameMap) -> bool {
    a.sha256@ == b.sha256@
}

/// The final component of a path, as `std::path::Path::file_name` finds it.
pub uninterp spec fn file_name_of(path: Seq<char>) -> Option<Seq<char>>;

/// Relies on `std::path::Path::file_name`: the last component of the path,
/// or nothing where the path ends in `..` or has no components.
#[verifier::external_body]
fn final_component(path: &str) -> (r: Option<String>)
    ensures
        match r {
            Some(s) => file_name_of(path@) == Some(s@),
            None => file_name_of(path@) is None,
        },
{
    std::path::Path::new(path).file_name().map(|n| n.to_string_lossy().into_owned())
}

impl GameMap {
    /// A map whose name is the final component of `path`.
    pub fn new(path: &str, sha256: &str, download_link: &str) -> (r: GameMap)
        requires
            file_name_of(path@) is Some,
        ensures
            Some(r.name@) == file_name_of(path@),
            r.path@ == path@,
            r.sha256@ == sha256@,
            r.download_link@ == download_link@,
    {
        let name = match final_component(path) {
            Some(n) => n,
            None => vstd::pervasive::unreached(),
        };
        GameMap {
            name,
            path: path.to_owned(),
            sha256: sha256.to_owned(),
            download_link: download_link.to_owned(),
        }
    }

    /// A map for `path`, or nothing where the path has no final component
    /// to name the map by.
    pub fn from_path(path: &str, sha256: &str, download_link: &str) -> (r: Option<GameMap>)
        ensures
            r is None <==> file_name_of(path@) is None,
            r matches Some(m) ==> {
                &&& Some(m.name@) == file_name_of(path@)
                &&& m.path@ == path@
                &&& m.sha256@ == sha256@
                &&& m.download_link@ == download_link@
            },
    {
        match final_component(path) {
            Some(_) => Some(GameMap::new(path, sha256, download_link)),
            None => None,
        }
    }
}

impl Clone for GameMap {
    fn clone(&self) -> (r: Self)
        ensures
            r == *self,
    {
        GameMap {
            name: self.name.clone(),
            path: self.path.clone(),
            sha256: self.sha256.clone(),
            download_link: self.download_link.clone(),
        }
    }
}

impl PartialEq for GameMap {
    fn eq(&self, cmp: &Self) -> (r: bool)
        ensures
            r == map_same(*self, *cmp),
    {
        self.sha256 == cmp.sha256
    }
}

impl vstd::std_specs::cmp::PartialEqSpecImpl for GameMap {
    open spec fn obeys_eq_spec() -> bool {
        true
    }

    open spec fn eq_spec(&self, cmp: &GameMap) -> bool {
        map_same(*self, *cmp)
    }
}

/// Mods with one non-empty hash are the same mod, whatever else they hold;
/// two mods without a hash are never the same mod.
pub proof fn lemma_mod_identity(a: Mod, b: Mod)
    ensures
        a.sha1@ == b.sha1@ && a.sha1@.len() > 0 ==> mod_same(a, b),
        a.sha1@.len() == 0 && b.sha1@.len() == 0 ==> !mod_same(a, b),
{
}

/// Maps with one hash are the same map, whatever else they hold, and this
/// holds of the empty hash too.
pub proof fn lemma_map_identity(a: GameMap, b: GameMap)
    ensures
        a.sha256@ == b.sha256@ ==> map_same(a, b),
        a.sha256@.len() == 0 && b.sha256@.len() == 0 ==> map_same(a, b),
{
    if a.sha256@.len() == 0 && b.sha256@.len() == 0 {
        assert(a.sha256@ =~= b.sha256@);
    }
}


/// What a benchmark set is, with its strings seen as character sequences.
pub struct BenchmarkSetView {
    pub save_subdirectory: Option<Seq<char>>,
    pub mods: Seq<Mod>,
    pub maps: Seq<GameMap>,
    pub ticks: u32,
    pub runs: u32,
}

/// A named benchmark configuration: the mods and maps it runs with, the
/// ticks of each run and the number of runs.
///
/// `mods` and `maps` hold the members of each set in the order in which they
/// are stored.
#[derive(Debug)]
pub struct BenchmarkSet {
    pub save_subdirectory: Option<String>,
    pub mods: Vec<Mod>,
    pub maps: Vec<GameMap>,
    pub ticks: u32,
    pub runs: u32,
}

pub open spec fn opt_view(o: Option<String>) -> Option<Seq<char>> {
    match o {
        Some(s) => Some(s@),
        None => None,
    }
}

impl View for BenchmarkSet {
    type V = BenchmarkSetView;

    open spec fn view(&self) -> BenchmarkSetView {
        BenchmarkSetView {
            save_subdirectory: opt_view(self.save_subdirectory),
            mods: self.mods@,
            maps: self.maps@,
            ticks: self.ticks,
            runs: self.runs,
        }
    }
}

/// Benchmark sets are equal when every field is, the mods and maps compared
/// member by member with their own notion of sameness.
pub open spec fn set_same(a: BenchmarkSetView, b: BenchmarkSetView) -> bool {
    &&& a.save_subdirectory == b.save_subdirectory
    &&& a.mods.len() == b.mods.len()
    &&& forall|i: int| 0 <= i < a.mods.len() ==> mod_same(#[trigger] a.mods[i], b.mods[i])
    &&& a.maps.len() == b.maps.len()
    &&& forall|i: int| 0 <= i < a.maps.len() ==> map_same(#[trigger] a.maps[i], b.maps[i])
    &&& a.ticks == b.ticks
    &&& a.runs == b.runs
}

fn copy_mods(v: &Vec<Mod>) -> (r: Vec<Mod>)
    ensures
        r@ == v@,
{
    let mut r: Vec<Mod> = Vec::new();
    let mut i: usize = 0;
    while i < v.len()
        invariant
            i <= v@.len(),
            r@ == v@.subrange(0, i as int),
        decreases v@.len() - i,
    {
        r.push(v[i].clone());
        i = i + 1;
    }
    assert(r@ =~= v@);
    r
}

fn copy_maps(v: &Vec<GameMap>) -> (r: Vec<GameMap>)
    ensures
        r@ == v@,
{
    let mut r: Vec<GameMap> = Vec::new();
    let mut i: usize = 0;
    while i < v.len()
        invariant
            i <= v@.len(),
            r@ == v@.subrange(0, i as int),
        decreases v@.len() - i,
    {
        r.push(v[i].clone());
        i = i + 1;
    }
    assert(r@ =~= v@);
    r
}

impl Clone for BenchmarkSet {
    fn clone(&self) -> (r: Self)
        ensures
            r@ == self@,
    {
        let save_subdirectory = match &self.save_subdirectory {
            Some(s) => Some(s.clone()),
            None => None,
        };
        BenchmarkSet {
            save_subdirectory,
            mods: copy_mods(&self.mods),
            maps: copy_maps(&self.maps),
            ticks: self.ticks,
            runs: self.runs,
        }
    }
}

impl Default for BenchmarkSet {
    fn default() -> (r: BenchmarkSet)
        ensures
            r@.save_subdirectory is None,
            r@.mods.len() == 0,
            r@.maps.len() == 0,
            r@.ticks == 0,
            r@.runs == 0,
    {
        BenchmarkSet {
            save_subdirectory: None,
            mods: Vec::new(),
            maps: Vec::new(),
            ticks: 0,
            runs: 0,
        }
    }
}

impl PartialEq for BenchmarkSet {
    fn eq(&self, other: &Self) -> (r: bool)
        ensures
            r == set_same(self@, other@),
    {
        let dirs_equal = match (&self.save_subdirectory, &other.save_subdirectory) {
            (Some(a), Some(b)) => *a == *b,
            (None, None) => true,
            _ => false,
        };
        if !dirs_equal || self.ticks != other.ticks || self.runs != other.runs {
            return false;
        }
        if self.mods.len() != other.mods.len() || self.maps.len() != other.maps.len() {
            return false;
        }
        let mut i: usize = 0;
        while i < self.mods.len()
            invariant
                i <= self.mods@.len(),
                self.mods@.len() == other.mods@.len(),
                forall|j: int| 0 <= j < i ==> mod_same(#[trigger] self.mods@[j], other.mods@[j]),
            decreases self.mods@.len() - i,
        {
            if !self.mods[i].eq(&other.mods[i]) {
                return false;
            }
            i = i + 1;
        }
        let mut i: usize = 0;
        while i < self.maps.len()
            invariant
                i <= self.maps@.len(),
                self.maps@.len() == other.maps@.len(),
                forall|j: int| 0 <= j < i ==> map_same(#[trigger] self.maps@[j], other.maps@[j]),
            decreases self.maps@.len() - i,
        {
            if !self.maps[i].eq(&other.maps[i]) {
                return false;
            }
            i = i + 1;
        }
        true
    }
}

impl vstd::std_specs::cmp::PartialEqSpecImpl for BenchmarkSet {
    open spec fn obeys_eq_spec() -> bool {
        true
    }

    open spec fn eq_spec(&self, other: &BenchmarkSet) -> bool {
        set_same(self@, other@)
    }
}

/// Why a store operation failed.
#[derive(Debug, PartialEq, Eq, Structural, Clone, Copy)]
pub enum ProcedureError {
    ProcedureAlreadyExists,
    FileNotFound,
    MalformedJSON,
    UnknownReadError,
}

/// Which of the two collections an operation lists.
#[derive(Debug, PartialEq, Eq, Structural, Clone, Copy)]
pub enum ProcedureKind {
    Benchmark,
    Meta,
    Both,
}

/// The kind that a lower-case selector names, if any.
pub open spec fn kind_named(t: Seq<char>) -> Option<ProcedureKind> {
    if t == "benchmark"@ {
        Some(ProcedureKind::Benchmark)
    } else if t == "meta"@ {
        Some(ProcedureKind::Meta)
    } else if t == "both"@ {
        Some(ProcedureKind::Both)
    } else {
        None
    }
}

/// The lower-case form of a string, as `str::to_lowercase` gives it.
pub uninterp spec fn lower_of(s: Seq<char>) -> Seq<char>;

/// Relies on `str::to_lowercase`: the result depends on the characters alone.
#[verifier::external_body]
fn lowercase(s: &str) -> (r: String)
    ensures
        r@ == lower_of(s@),
{
    s.to_lowercase()
}

fn text_eq(a: &str, b: &str) -> (r: bool)
    ensures
        r == (a@ == b@),
{
    let n = a.unicode_len();
    if n != b.unicode_len() {
        return false;
    }
    let mut i: usize = 0;
    while i < n
        invariant
            n == a@.len(),
            n == b@.len(),
            i <= n,
            forall|j: int| 0 <= j < i ==> a@[j] == b@[j],
        decreases n - i,
    {
        if a.get_char(i) != b.get_char(i) {
            return false;
        }
        i = i + 1;
    }
    assert(a@ =~= b@);
    true
}

pub open spec fn unknown_kind_message() -> Seq<char> {
    "Error: UnknownProcedureType"@
}

impl ProcedureKind {
    /// The kind that an already lower-case selector names.
    pub fn from_lowercase(t: &str) -> (r: Result<ProcedureKind, String>)
        ensures
            match kind_named(t@) {
                Some(k) => r == Ok::<ProcedureKind, String>(k),
                None => r matches Err(e) && e@ == unknown_kind_message(),
            },
    {
        if text_eq(t, "benchmark") {
            Ok(ProcedureKind::Benchmark)
        } else if text_eq(t, "meta") {
            Ok(ProcedureKind::Meta)
        } else if text_eq(t, "both") {
            Ok(ProcedureKind::Both)
        } else {
            Err("Error: UnknownProcedureType".to_owned())
        }
    }

    /// The kind that a selector names, letter case ignored.
    pub fn parse(s: &str) -> (r: Result<ProcedureKind, String>)
        ensures
            match kind_named(lower_of(s@)) {
                Some(k) => r == Ok::<ProcedureKind, String>(k),
                None => r matches Err(e) && e@ == unknown_kind_message(),
            },
    {
        let t = lowercase(s);
        ProcedureKind::from_lowercase(t.as_str())
    }

    /// Whether a listing of this kind shows the benchmark sets.
    pub fn lists_benchmarks(&self) -> (r: bool)
        ensures
            r == (*self == ProcedureKind::Benchmark || *self == ProcedureKind::Both),
    {
        *self == ProcedureKind::Benchmark || *self == ProcedureKind::Both
    }

    /// Whether a listing of this kind shows the meta sets.
    pub fn lists_metas(&self) -> (r: bool)
        ensures
            r == (*self == ProcedureKind::Meta || *self == ProcedureKind::Both),
    {
        *self == ProcedureKind::Meta || *self == ProcedureKind::Both
    }
}

impl core::str::FromStr for ProcedureKind {
    type Err = String;

    fn from_str(s: &str) -> Result<ProcedureKind, String> {
        ProcedureKind::parse(s)
    }
}

/// When writing to a file, if there is already a procedure with the same name, should this procedure be overwritten?
#[derive(Debug, PartialEq, Eq, Structural, Copy, Clone)]
pub enum ProcedureOverwrite {
    True,
    False,
}

impl From<bool> for ProcedureOverwrite {
    fn from(b: bool) -> (r: ProcedureOverwrite)
        ensures
            r == (if b { ProcedureOverwrite::True } else { ProcedureOverwrite::False }),
    {
        if b {
            ProcedureOverwrite::True
        } else {
            ProcedureOverwrite::False
        }
    }
}

impl vstd::std_specs::convert::FromSpecImpl<bool> for ProcedureOverwrite {
    open spec fn obeys_from_spec() -> bool {
        true
    }

    open spec fn from_spec(b: bool) -> ProcedureOverwrite {
        if b {
            ProcedureOverwrite::True
        } else {
            ProcedureOverwrite::False
        }
    }
}

impl core::ops::Not for ProcedureOverwrite {
    type Output = ProcedureOverwrite;

    fn not(self) -> (r: ProcedureOverwrite)
        ensures
            r == (if self == ProcedureOverwrite::True {
                ProcedureOverwrite::False
            } else {
                ProcedureOverwrite::True
            }),
    {
        match self {
            ProcedureOverwrite::True => ProcedureOverwrite::False,
            ProcedureOverwrite::False => ProcedureOverwrite::True,
        }
    }
}

impl vstd::std_specs::ops::NotSpecImpl for ProcedureOverwrite {
    open spec fn obeys_not_spec() -> bool {
        true
    }

    open spec fn not_req(self) -> bool {
        true
    }

    open spec fn not_spec(self) -> ProcedureOverwrite {
        if self == ProcedureOverwrite::True {
            ProcedureOverwrite::False
        } else {
            ProcedureOverwrite::True
        }
    }
}

} // verus!
