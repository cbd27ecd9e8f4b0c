//! The coverage data model and the aggregator that accumulates it across runs.
use vstd::prelude::*;
use crate::text::{
    chars_of, string_of_range, split_on, split_ranges, parse_u32_range, parsed_u32,
    lemma_split_on_nonempty,
};
use crate::compiler::{extension_range, extension, language_of_path, detect_language};

verus! {

/// A source position: file, line and column.
#[derive(Debug, Clone, PartialEq, Eq, Hash)]
pub struct Location {
    pub file: String,
    pub line: u32,
    pub column: u32,
}

/// A location as plain values.
pub type LocationView = (Seq<char>, u32, u32);

impl View for Location {
    type V = LocationView;

    open spec fn view(&self) -> LocationView {
        (self.file@, self.line, self.column)
    }
}

/// Whether a branch was taken, and how often.
#[derive(Debug, Clone)]
pub struct BranchInfo {
    pub taken: bool,
    pub count: u64,
    pub condition: Option<String>,
}

/// What is known of one function.
#[derive(Debug, Clone)]
pub struct FunctionInfo {
    pub name: String,
    pub start_line: u32,
    pub end_line: u32,
    pub called: u64,
}

/// Everything that has been covered so far. Each of the four collections holds
/// no two entries with the same key.
#[derive(Debug, Clone)]
pub struct CoverageData {
    pub lines: Vec<Location>,
    pub branches: Vec<(Location, BranchInfo)>,
    pub functions: Vec<FunctionInfo>,
    pub includes: Vec<String>,
}

/// The views of a sequence of locations.
pub open spec fn location_views(s: Seq<Location>) -> Seq<LocationView> {
    s.map_values(|l: Location| l@)
}

impl CoverageData {
    /// The covered lines as a sequence of plain values.
    pub open spec fn line_views(&self) -> Seq<LocationView> {
        location_views(self.lines@)
    }

    /// The set of covered locations.
    pub open spec fn line_set(&self) -> Set<LocationView> {
        self.line_views().to_set()
    }

    /// The locations that carry branch facts.
    pub open spec fn branch_locations(&self) -> Seq<LocationView> {
        self.branches@.map_values(|e: (Location, BranchInfo)| e.0@)
    }

    /// The header paths recorded.
    pub open spec fn include_set(&self) -> Set<Seq<char>> {
        self.includes@.map_values(|x: String| x@).to_set()
    }

    /// Keys are unique in every collection.
    pub open spec fn wf(&self) -> bool {
        &&& self.line_views().no_duplicates()
        &&& self.branch_locations().no_duplicates()
        &&& self.functions@.map_values(|f: FunctionInfo| f.name@).no_duplicates()
        &&& self.includes@.map_values(|x: String| x@).no_duplicates()
    }

    /// No coverage at all.
    pub fn empty() -> (r: CoverageData)
        ensures
            r.wf(),
            r.lines@.len() == 0,
            r.branches@.len() == 0,
            r.functions@.len() == 0,
            r.includes@.len() == 0,
    {
        let r = CoverageData {
            lines: Vec::new(),
            branches: Vec::new(),
            functions: Vec::new(),
            includes: Vec::new(),
        };
        assert(r.line_views() =~= Seq::<LocationView>::empty());
        assert(r.branch_locations() =~= Seq::<LocationView>::empty());
        assert(r.functions@.map_values(|f: FunctionInfo| f.name@) =~= Seq::<Seq<char>>::empty());
        assert(r.includes@.map_values(|x: String| x@) =~= Seq::<Seq<char>>::empty());
        r
    }

    /// Adds `path` to the recorded headers unless it is there already.
    pub fn insert_include(&mut self, path: String)
        requires
            old(self).wf(),
        ensures
            final(self).wf(),
            final(self).include_set() == old(self).include_set().insert(path@),
            final(self).lines == old(self).lines,
            final(self).branches == old(self).branches,
            final(self).functions == old(self).functions,
    {
        let ghost v = self.includes@.map_values(|x: String| x@);
        let mut i: usize = 0;
        while i < self.includes.len()
            invariant
                i <= self.includes@.len(),
                *self == *old(self),
                old(self).wf(),
                v == self.includes@.map_values(|x: String| x@),
                forall|k: int| 0 <= k < i ==> self.includes@[k]@ != path@,
            decreases self.includes@.len() - i,
        {
            if self.includes[i] == path {
                proof {
                    assert(v[i as int] == path@);
                    assert(self.include_set() =~= self.include_set().insert(path@));
                }
                return;
            }
            i = i + 1;
        }
        let ghost pv = path@;
        self.includes.push(path);
        proof {
            let w = self.includes@.map_values(|x: String| x@);
            assert(w =~= v.push(pv));
            assert(!v.contains(pv)) by {
                if v.contains(pv) {
                    let k = choose|k: int| 0 <= k < v.len() && v[k] == pv;
                    assert(old(self).includes@[k]@ == pv);
                }
            }
            assert forall|x| w.to_set().contains(x) <==> v.to_set().insert(pv).contains(x) by {
                if x == pv {
                    assert(w[v.len() as int] == x);
                }
                if v.contains(x) {
                    let k = choose|k: int| 0 <= k < v.len() && v[k] == x;
                    assert(w[k] == x);
                }
            }
            assert(self.include_set() =~= old(self).include_set().insert(pv));
        }
    }

    /// Adds `loc` to the covered lines unless it is there already.
    pub fn insert_line(&mut self, loc: Location)
        requires
            old(self).wf(),
        ensures
            final(self).wf(),
            final(self).line_set() == old(self).line_set().insert(loc@),
            old(self).line_set().contains(loc@) ==> final(self).lines@.len() == old(
                self,
            ).lines@.len(),
            final(self).lines@.len() >= old(self).lines@.len(),
            final(self).branches == old(self).branches,
            final(self).functions == old(self).functions,
            final(self).includes == old(self).includes,
    {
        let mut i: usize = 0;
        while i < self.lines.len()
            invariant
                i <= self.lines@.len(),
                *self == *old(self),
                old(self).wf(),
                forall|k: int| 0 <= k < i ==> self.lines@[k]@ != loc@,
            decreases self.lines@.len() - i,
        {
            let l = &self.lines[i];
            if l.line == loc.line && l.column == loc.column && l.file == loc.file {
                proof {
                    assert(self.line_views()[i as int] == loc@);
                    assert(self.line_set() =~= self.line_set().insert(loc@));
                }
                return;
            }
            i = i + 1;
        }
        let ghost before = self.line_views();
        self.lines.push(loc);
        proof {
            assert(self.line_views() =~= before.push(loc@));
            assert(!before.contains(loc@)) by {
                if before.contains(loc@) {
                    let k = choose|k: int| 0 <= k < before.len() && before[k] == loc@;
                    assert(old(self).lines@[k]@ == loc@);
                }
            }
            assert(self.line_set() =~= old(self).line_set().insert(loc@)) by {
                assert forall|x| self.line_set().contains(x) <==> old(
                    self,
                ).line_set().insert(loc@).contains(x) by {
                    if x == loc@ {
                        assert(self.line_views()[before.len() as int] == x);
                    }
                    if before.contains(x) {
                        let k = choose|k: int| 0 <= k < before.len() && before[k] == x;
                        assert(self.line_views()[k] == x);
                    }
                }
            }
            assert(self.line_views().no_duplicates());
        }
    }
}

/// In well-formed data, the number of covered entries is the number of distinct
/// covered locations.
pub proof fn lemma_line_count_is_set_size(d: CoverageData)
    requires
        d.wf(),
    ensures
        d.lines@.len() == d.line_set().len(),
{
    d.line_views().unique_seq_to_set();
}

/// `s` without one trailing carriage return.
pub open spec fn strip_cr(s: Seq<char>) -> Seq<char> {
    if s.len() > 0 && s.last() == '\r' {
        s.drop_last()
    } else {
        s
    }
}

/// Line `j` of a text split at its newlines, as `str::lines` gives it: a
/// carriage return before a newline is not part of the line.
pub open spec fn text_line(pieces: Seq<Seq<char>>, j: int) -> Seq<char> {
    if j + 1 < pieces.len() {
        strip_cr(pieces[j])
    } else {
        pieces[j]
    }
}

/// The location named by one line of a coverage listing: at least three
/// colon-separated fields, the first the file, the second and third a line and
/// a column in decimal; any other line names none.
pub open spec fn parse_location(line: Seq<char>) -> Option<LocationView> {
    let f = split_on(line, ':');
    if f.len() >= 3 && parsed_u32(f[1]) is Some && parsed_u32(f[2]) is Some {
        Some((f[0], parsed_u32(f[1])->0, parsed_u32(f[2])->0))
    } else {
        None
    }
}

/// The locations named by the first `n` lines of a listing split into `pieces`.
pub open spec fn parsed_prefix(pieces: Seq<Seq<char>>, n: int) -> Set<LocationView> {
    Set::new(
        |l: LocationView|
            exists|j: int| 0 <= j < n && parse_location(text_line(pieces, j)) == Some(l),
    )
}

/// The locations named by the lines of a coverage listing.
pub open spec fn parsed_locations(s: Seq<char>) -> Set<LocationView> {
    parsed_prefix(split_on(s, '\n'), split_on(s, '\n').len() as int)
}

/// The view of an optional location.
pub open spec fn opt_view(r: Option<Location>) -> Option<LocationView> {
    match r {
        Some(l) => Some(l@),
        None => None,
    }
}

/// The location named by `cs[lo..hi]`, read as one line of a listing.
fn parse_location_range(cs: &Vec<char>, lo: usize, hi: usize) -> (r: Option<Location>)
    requires
        lo <= hi <= cs@.len(),
    ensures
        opt_view(r) == parse_location(cs@.subrange(lo as int, hi as int)),
{
    let fields = split_ranges(cs, lo, hi, ':');
    if fields.len() < 3 {
        return None;
    }
    let (a1, b1) = fields[1];
    let (a2, b2) = fields[2];
    let line = match parse_u32_range(cs, a1, b1) {
        Some(v) => v,
        None => return None,
    };
    let column = match parse_u32_range(cs, a2, b2) {
        Some(v) => v,
        None => return None,
    };
    let (a0, b0) = fields[0];
    let file = string_of_range(cs, a0, b0);
    Some(Location { file, line, column })
}

/// The number of lines `str::lines` finds in `s`: a final line ending adds no
/// empty line.
pub open spec fn line_count(s: Seq<char>) -> nat {
    let n = split_on(s, '\n').len();
    if s.len() == 0 || s.last() == '\n' {
        (n - 1) as nat
    } else {
        n
    }
}

/// The number of lines of `text`.
pub fn count_lines(text: &str) -> (r: usize)
    ensures
        r == line_count(text@),
{
    let cs = chars_of(text);
    let pieces = split_ranges(&cs, 0, cs.len(), '\n');
    assert(cs@.subrange(0, cs@.len() as int) =~= text@);
    proof {
        lemma_split_on_nonempty(text@, '\n');
    }
    if cs.len() == 0 || cs[cs.len() - 1] == '\n' {
        pieces.len() - 1
    } else {
        pieces.len()
    }
}

/// The plain view of source entries: a path and the file's text.
pub open spec fn entry_views(e: Seq<(String, String)>) -> Seq<(Seq<char>, Seq<char>)> {
    e.map_values(|x: (String, String)| (x.0@, x.1@))
}

/// The lines of the entries whose path names a C or C++ source, summed.
pub open spec fn source_line_total(e: Seq<(Seq<char>, Seq<char>)>) -> nat
    decreases e.len(),
{
    if e.len() == 0 {
        0
    } else {
        source_line_total(e.drop_last()) + if language_of_path(e.last().0) is Some {
            line_count(e.last().1)
        } else {
            0
        }
    }
}

/// The number of instrumentable lines among `entries` (path, text), capped at
/// `usize::MAX`: files of other languages are not counted.
pub fn count_total_lines(entries: &Vec<(String, String)>) -> (r: usize)
    ensures
        r as nat == if source_line_total(entry_views(entries@)) <= usize::MAX {
            source_line_total(entry_views(entries@))
        } else {
            usize::MAX as nat
        },
{
    let ghost e = entry_views(entries@);
    let mut total: usize = 0;
    let mut i: usize = 0;
    assert(e.take(0) =~= Seq::<(Seq<char>, Seq<char>)>::empty());
    while i < entries.len()
        invariant
            i <= entries@.len(),
            e == entry_views(entries@),
            total as nat == if source_line_total(e.take(i as int)) <= usize::MAX {
                source_line_total(e.take(i as int))
            } else {
                usize::MAX as nat
            },
        decreases entries@.len() - i,
    {
        assert(e.take(i + 1).drop_last() =~= e.take(i as int));
        assert(e.take(i + 1).last() == e[i as int]);
        let c: usize = if detect_language(entries[i].0.as_str()).is_some() {
            count_lines(entries[i].1.as_str())
        } else {
            0
        };
        if total > usize::MAX - c {
            total = usize::MAX;
        } else {
            total = total + c;
        }
        i = i + 1;
    }
    assert(e.take(e.len() as int) =~= e);
    total
}

/// The header files among `paths`: those whose extension is `h` or `hpp`.
pub open spec fn is_header(p: Seq<char>) -> bool {
    extension(p) == Some(seq!['h']) || extension(p) == Some(seq!['h', 'p', 'p'])
}

/// The aggregator: owns the coverage gathered so far and folds new listings in.
pub struct Coverage {
    config: crate::CoverageConfig,
    data: CoverageData,
}

impl Coverage {
    /// The coverage gathered so far.
    pub closed spec fn data(&self) -> CoverageData {
        self.data
    }

    /// The settings the aggregator was made with.
    pub closed spec fn config(&self) -> crate::CoverageConfig {
        self.config
    }

    pub open spec fn wf(&self) -> bool {
        self.data().wf()
    }

    /// An aggregator with no coverage yet.
    pub fn new(config: crate::CoverageConfig) -> (r: Self)
        ensures
            r.wf(),
            r.config() == config,
            r.data().lines@.len() == 0,
            r.data().branches@.len() == 0,
            r.data().functions@.len() == 0,
            r.data().includes@.len() == 0,
    {
        Coverage { config, data: CoverageData::empty() }
    }

    /// The location that one line of a coverage listing names, if any.
    pub fn parse_coverage_line(&self, line: &str) -> (r: Option<Location>)
        ensures
            opt_view(r) == parse_location(line@),
    {
        let cs = chars_of(line);
        assert(cs@.subrange(0, cs@.len() as int) =~= line@);
        parse_location_range(&cs, 0, cs.len())
    }

    /// Folds every location named by a coverage listing into the covered lines.
    /// Lines that name none are skipped.
    pub fn ingest(&mut self, output: &str)
        requires
            old(self).wf(),
        ensures
            final(self).wf(),
            final(self).config() == old(self).config(),
            final(self).data().line_set() == old(self).data().line_set().union(
                parsed_locations(output@),
            ),
            old(self).data().line_set().subset_of(final(self).data().line_set()),
            final(self).data().lines@.len() >= old(self).data().lines@.len(),
            parsed_locations(output@).subset_of(old(self).data().line_set())
                ==> final(self).data().lines@.len() == old(self).data().lines@.len(),
            final(self).data().branches == old(self).data().branches,
            final(self).data().functions == old(self).data().functions,
            final(self).data().includes == old(self).data().includes,
    {
        let cs = chars_of(output);
        let ranges = split_ranges(&cs, 0, cs.len(), '\n');
        assert(cs@.subrange(0, cs@.len() as int) =~= output@);
        let ghost p = split_on(output@, '\n');
        assert(parsed_prefix(p, 0) =~= Set::<LocationView>::empty());
        assert(old(self).data().line_set().union(parsed_prefix(p, 0)) =~= old(
            self,
        ).data().line_set());
        let mut j: usize = 0;
        while j < ranges.len()
            invariant
                j <= ranges@.len(),
                ranges@.len() == p.len(),
                p == split_on(output@, '\n'),
                cs@ == output@,
                forall|k: int|
                    0 <= k < ranges@.len() ==> (#[trigger] ranges@[k]).0 <= ranges@[k].1
                        <= cs@.len() && cs@.subrange(ranges@[k].0 as int, ranges@[k].1 as int)
                        == p[k],
                self.data.wf(),
                self.config == old(self).config,
                self.data.line_set() == old(self).data().line_set().union(
                    parsed_prefix(p, j as int),
                ),
                self.data.lines@.len() >= old(self).data().lines@.len(),
                self.data.branches == old(self).data().branches,
                self.data.functions == old(self).data().functions,
                self.data.includes == old(self).data().includes,
            decreases ranges@.len() - j,
        {
            let (lo, hi0) = ranges[j];
            let mut hi = hi0;
            if j + 1 < ranges.len() && hi0 > lo && cs[hi0 - 1] == '\r' {
                hi = hi0 - 1;
            }
            assert(cs@.subrange(lo as int, hi as int) =~= text_line(p, j as int));
            let parsed = parse_location_range(&cs, lo, hi);
            let ghost before = self.data.line_set();
            match parsed {
                Some(loc) => {
                    self.data.insert_line(loc);
                },
                None => {},
            }
            proof {
                assert(self.data.line_set() =~= old(self).data().line_set().union(
                    parsed_prefix(p, j + 1),
                )) by {
                    assert forall|l: LocationView|
                        #![auto]
                        parsed_prefix(p, j + 1).contains(l) <==> (parsed_prefix(
                            p,
                            j as int,
                        ).contains(l) || opt_view(parsed) == Some(l)) by {
                        if parsed_prefix(p, j + 1).contains(l) {
                            let k = choose|k: int|
                                0 <= k < j + 1 && parse_location(text_line(p, k)) == Some(l);
                            if k < j {
                                assert(parsed_prefix(p, j as int).contains(l));
                            }
                        }
                        if parsed_prefix(p, j as int).contains(l) {
                            let k = choose|k: int|
                                0 <= k < j && parse_location(text_line(p, k)) == Some(l);
                            assert(0 <= k < j + 1 && parse_location(text_line(p, k)) == Some(l));
                        }
                        if opt_view(parsed) == Some(l) {
                            assert(parse_location(text_line(p, j as int)) == Some(l));
                        }
                    }
                }
            }
            j = j + 1;
        }
        proof {
            if parsed_locations(output@).subset_of(old(self).data().line_set()) {
                assert(self.data.line_set() =~= old(self).data().line_set());
                lemma_line_count_is_set_size(old(self).data());
                lemma_line_count_is_set_size(self.data);
            }
        }
    }

    /// Records every header file among `paths`; other paths are ignored.
    pub fn record_includes(&mut self, paths: &Vec<String>)
        requires
            old(self).wf(),
        ensures
            final(self).wf(),
            final(self).config() == old(self).config(),
            final(self).data().include_set() == old(self).data().include_set().union(
                Set::new(
                    |x: Seq<char>|
                        exists|k: int| 0 <= k < paths@.len() && paths@[k]@ == x && is_header(x),
                ),
            ),
            final(self).data().lines == old(self).data().lines,
            final(self).data().branches == old(self).data().branches,
            final(self).data().functions == old(self).data().functions,
    {
        let mut i: usize = 0;
        while i < paths.len()
            invariant
                i <= paths@.len(),
                self.data.wf(),
                self.config == old(self).config,
                self.data.include_set() == old(self).data().include_set().union(
                    Set::new(
                        |x: Seq<char>|
                            exists|k: int| 0 <= k < i && paths@[k]@ == x && is_header(x),
                    ),
                ),
                self.data.lines == old(self).data().lines,
                self.data.branches == old(self).data().branches,
                self.data.functions == old(self).data().functions,
            decreases paths@.len() - i,
        {
            let cs = chars_of(paths[i].as_str());
            let header = match extension_range(&cs) {
                Some((a, b)) => {
                    let ghost e = cs@.subrange(a as int, b as int);
                    if b - a == 1 && cs[a] == 'h' {
                        assert(e =~= seq!['h']);
                        true
                    } else if b - a == 3 && cs[a] == 'h' && cs[a + 1] == 'p' && cs[a + 2] == 'p' {
                        assert(e =~= seq!['h', 'p', 'p']);
                        true
                    } else {
                        proof {
                            if b - a >= 1 {
                                assert(e[0] == cs@[a as int]);
                            }
                            if b - a >= 3 {
                                assert(e[1] == cs@[a + 1] && e[2] == cs@[a + 2]);
                            }
                            assert(seq!['h'].len() == 1 && seq!['h'][0] == 'h');
                            assert(seq!['h', 'p', 'p'][1] == 'p' && seq!['h', 'p', 'p'][2] == 'p');
                        }
                        false
                    }
                },
                None => false,
            };
            assert(header == is_header(paths@[i as int]@));
            let ghost before = self.data.include_set();
            if header {
                self.data.insert_include(paths[i].clone());
            }
            proof {
                let nx = Set::new(
                    |x: Seq<char>|
                        exists|k: int| 0 <= k < i + 1 && paths@[k]@ == x && is_header(x),
                );
                let px = Set::new(
                    |x: Seq<char>| exists|k: int| 0 <= k < i && paths@[k]@ == x && is_header(x),
                );
                assert forall|x: Seq<char>|
                    #![auto]
                    nx.contains(x) <==> (px.contains(x) || (header && x == paths@[i as int]@)) by {
                    if nx.contains(x) {
                        let k = choose|k: int|
                            0 <= k < i + 1 && paths@[k]@ == x && is_header(x);
                        if k < i {
                            assert(px.contains(x));
                        }
                    }
                    if px.contains(x) {
                        let k = choose|k: int| 0 <= k < i && paths@[k]@ == x && is_header(x);
                        assert(0 <= k < i + 1 && paths@[k]@ == x && is_header(x));
                    }
                    if header && x == paths@[i as int]@ {
                        assert(0 <= i < i + 1 && paths@[i as int]@ == x && is_header(x));
                    }
                }
                assert(self.data.include_set() =~= old(self).data().include_set().union(nx));
            }
            i = i + 1;
        }
    }

    /// The coverage gathered so far.
    pub fn get_coverage_data(&self) -> (r: &CoverageData)
        ensures
            *r == self.data(),
    {
        &self.data
    }

    /// The number of distinct locations covered so far.
    pub fn covered_line_count(&self) -> (r: usize)
        ensures
            r == self.data().lines@.len(),
    {
        self.data.lines.len()
    }

    /// Covered lines over `total_lines`, the two terms of the line-coverage
    /// percentage; none when there are no lines to cover, in which case the
    /// percentage is zero.
    pub fn line_coverage(&self, total_lines: usize) -> (r: Option<(usize, usize)>)
        ensures
            total_lines == 0 ==> r is None,
            total_lines > 0 ==> r == Some((self.data().lines@.len() as usize, total_lines)),
    {
        if total_lines == 0 {
            None
        } else {
            Some((self.data.lines.len(), total_lines))
        }
    }
}

} // verus!
