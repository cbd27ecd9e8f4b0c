//! LCOV output and the annotated source listing.
use vstd::prelude::*;
use crate::text::{chars_of, push_str, push_range, push_decimal, decimal, split_on, split_ranges, lemma_split_on_nonempty};
use crate::compiler::texts;
use crate::coverage::{CoverageData, LocationView, text_line, line_count};
use crate::order::{
    sorted_distinct, insert_ordered, strictly_sorted, lex_order, num_order, lemma_sorted_distinct,
    lemma_insert_ordered, lemma_sorted_no_duplicates, lemma_orders_are_total,
    insert_file_ordered, insert_line_ordered,
};

verus! {

/// The files named by covered lines, then by branches.
pub open spec fn named_files(d: CoverageData) -> Seq<Seq<char>> {
    d.line_views().map_values(|v: LocationView| v.0) + d.branch_locations().map_values(
        |v: LocationView| v.0,
    )
}

/// The files of the report, each once, sorted by path.
pub open spec fn report_files(d: CoverageData) -> Seq<Seq<char>> {
    sorted_distinct(named_files(d), lex_order())
}

/// The covered line numbers of file `f`, each once, in increasing order.
pub open spec fn file_lines(s: Seq<LocationView>, f: Seq<char>) -> Seq<u32>
    decreases s.len(),
{
    if s.len() == 0 {
        Seq::<u32>::empty()
    } else if s.last().0 == f {
        insert_ordered(file_lines(s.drop_last(), f), s.last().1, num_order())
    } else {
        file_lines(s.drop_last(), f)
    }
}

/// Line `n` of `f` is in `file_lines` exactly when some covered location names
/// it, and the lines come in increasing order.
pub proof fn lemma_file_lines(s: Seq<LocationView>, f: Seq<char>)
    ensures
        strictly_sorted(file_lines(s, f), num_order()),
        file_lines(s, f).no_duplicates(),
        forall|n: u32|
            file_lines(s, f).contains(n) <==> exists|k: int|
                0 <= k < s.len() && (#[trigger] s[k]).0 == f && s[k].1 == n,
    decreases s.len(),
{
    lemma_orders_are_total();
    if s.len() > 0 {
        let p = s.drop_last();
        lemma_file_lines(p, f);
        let fp = file_lines(p, f);
        if s.last().0 == f {
            lemma_insert_ordered(fp, s.last().1, num_order());
            assert(file_lines(s, f) == insert_ordered(fp, s.last().1, num_order()));
            assert forall|n: u32| file_lines(s, f).contains(n) <==> (fp.contains(n) || n == s.last().1) by {
                assert(insert_ordered(fp, s.last().1, num_order()).contains(n) <==> (fp.contains(n) || n == s.last().1));
            }
        } else {
            assert(file_lines(s, f) == fp);
        }
        assert forall|n: u32|
            file_lines(s, f).contains(n) <==> exists|k: int|
                0 <= k < s.len() && (#[trigger] s[k]).0 == f && s[k].1 == n by {
            let in_s = exists|k: int| 0 <= k < s.len() && (#[trigger] s[k]).0 == f && s[k].1 == n;
            let in_p = exists|k: int| 0 <= k < p.len() && (#[trigger] p[k]).0 == f && p[k].1 == n;
            let hit = s.last().0 == f && s.last().1 == n;
            assert(fp.contains(n) <==> in_p);
            assert(in_s <==> (in_p || hit)) by {
                if in_p {
                    let k = choose|k: int| 0 <= k < p.len() && (#[trigger] p[k]).0 == f && p[k].1 == n;
                    assert(s[k] == p[k]);
                }
                if hit {
                    assert(s[s.len() - 1] == s.last());
                }
                if in_s {
                    let k = choose|k: int| 0 <= k < s.len() && (#[trigger] s[k]).0 == f && s[k].1 == n;
                    if k < p.len() {
                        assert(p[k] == s[k]);
                    } else {
                        assert(s.last() == s[k]);
                    }
                }
            }
            assert(file_lines(s, f).contains(n) <==> (fp.contains(n) || hit));
        }
    }
    lemma_sorted_no_duplicates(file_lines(s, f), num_order());
}

/// Each branch as its location and its reported count: the count when taken,
/// else zero.
pub open spec fn branch_facts(d: CoverageData) -> Seq<(LocationView, u64)> {
    d.branches@.map_values(
        |e: (crate::coverage::Location, crate::coverage::BranchInfo)|
            (
                e.0@,
                if e.1.taken {
                    e.1.count
                } else {
                    0
                },
            ),
    )
}

/// The line and count of each branch of file `f`, in order.
pub open spec fn file_branches(s: Seq<(LocationView, u64)>, f: Seq<char>) -> Seq<(u32, u64)>
    decreases s.len(),
{
    if s.len() == 0 {
        Seq::<(u32, u64)>::empty()
    } else if s.last().0.0 == f {
        file_branches(s.drop_last(), f).push((s.last().0.1, s.last().1))
    } else {
        file_branches(s.drop_last(), f)
    }
}

/// One `DA:<line>,1` record per line.
pub open spec fn da_text(ls: Seq<u32>) -> Seq<char>
    decreases ls.len(),
{
    if ls.len() == 0 {
        Seq::<char>::empty()
    } else {
        da_text(ls.drop_last()) + "DA:"@ + decimal(ls.last() as nat) + ",1\n"@
    }
}

/// One `BRDA:<line>,0,0,<count>` record per branch.
pub open spec fn brda_text(bs: Seq<(u32, u64)>) -> Seq<char>
    decreases bs.len(),
{
    if bs.len() == 0 {
        Seq::<char>::empty()
    } else {
        brda_text(bs.drop_last()) + "BRDA:"@ + decimal(bs.last().0 as nat) + ",0,0,"@ + decimal(
            bs.last().1 as nat,
        ) + "\n"@
    }
}

/// The LCOV block of file `f`.
pub open spec fn file_block(d: CoverageData, f: Seq<char>) -> Seq<char> {
    "SF:"@ + f + "\nFNF:0\nFNH:0\n"@ + da_text(file_lines(d.line_views(), f)) + brda_text(
        file_branches(branch_facts(d), f),
    ) + "end_of_record\n"@
}

/// The blocks of the files `fs`, in order.
pub open spec fn blocks(d: CoverageData, fs: Seq<Seq<char>>) -> Seq<char>
    decreases fs.len(),
{
    if fs.len() == 0 {
        Seq::<char>::empty()
    } else {
        blocks(d, fs.drop_last()) + file_block(d, fs.last())
    }
}

/// The LCOV text of `d`: one block per file, files sorted by path.
pub open spec fn lcov_text(d: CoverageData) -> Seq<char> {
    blocks(d, report_files(d))
}

fn report_file_list(d: &CoverageData) -> (r: Vec<String>)
    ensures
        texts(r@) == report_files(*d),
{
    let ghost names = named_files(*d);
    let ghost nl = d.lines@.len();
    let mut files: Vec<String> = Vec::new();
    assert(names.take(0) =~= Seq::<Seq<char>>::empty());
    assert(texts(files@) =~= Seq::<Seq<char>>::empty());
    let mut i: usize = 0;
    while i < d.lines.len()
        invariant
            i <= d.lines@.len(),
            names == named_files(*d),
            texts(files@) == sorted_distinct(names.take(i as int), lex_order()),
        decreases d.lines@.len() - i,
    {
        insert_file_ordered(&mut files, &d.lines[i].file);
        assert(names.take(i + 1).drop_last() =~= names.take(i as int));
        assert(names[i as int] == d.lines@[i as int].file@);
        i = i + 1;
    }
    let mut k: usize = 0;
    while k < d.branches.len()
        invariant
            k <= d.branches@.len(),
            names == named_files(*d),
            names.len() == d.lines@.len() + d.branches@.len(),
            texts(files@) == sorted_distinct(names.take(d.lines@.len() + k), lex_order()),
        decreases d.branches@.len() - k,
    {
        insert_file_ordered(&mut files, &d.branches[k].0.file);
        assert(names.take(d.lines@.len() + k + 1).drop_last() =~= names.take(
            d.lines@.len() + k,
        ));
        assert(names[d.lines@.len() + k] == d.branches@[k as int].0.file@);
        k = k + 1;
    }
    assert(names.take(names.len() as int) =~= names);
    files
}

fn contains_u32(v: &Vec<u32>, x: u32) -> (r: bool)
    ensures
        r == v@.contains(x),
{
    let mut i: usize = 0;
    while i < v.len()
        invariant
            i <= v@.len(),
            forall|k: int| 0 <= k < i ==> v@[k] != x,
        decreases v@.len() - i,
    {
        if v[i] == x {
            return true;
        }
        i = i + 1;
    }
    false
}

/// The covered lines of file `f` in `d`, in increasing order.
pub fn covered_lines_of(d: &CoverageData, f: &String) -> (r: Vec<u32>)
    ensures
        r@ == file_lines(d.line_views(), f@),
{
    let ghost s = d.line_views();
    let mut r: Vec<u32> = Vec::new();
    let mut i: usize = 0;
    assert(s.take(0) =~= Seq::<LocationView>::empty());
    while i < d.lines.len()
        invariant
            i <= d.lines@.len(),
            s == d.line_views(),
            r@ == file_lines(s.take(i as int), f@),
        decreases d.lines@.len() - i,
    {
        let loc = &d.lines[i];
        assert(s.take(i + 1).drop_last() =~= s.take(i as int));
        assert(s[i as int] == loc@);
        if loc.file == *f {
            insert_line_ordered(&mut r, loc.line);
        }
        i = i + 1;
    }
    assert(s.take(s.len() as int) =~= s);
    r
}

fn push_file_block(out: &mut String, d: &CoverageData, f: &String)
    ensures
        final(out)@ == old(out)@ + file_block(*d, f@),
{
    push_str(out, "SF:");
    push_str(out, f.as_str());
    push_str(out, "\nFNF:0\nFNH:0\n");
    let ghost base = out@;
    let lines = covered_lines_of(d, f);
    let mut i: usize = 0;
    assert(lines@.take(0) =~= Seq::<u32>::empty());
    while i < lines.len()
        invariant
            i <= lines@.len(),
            out@ == base + da_text(lines@.take(i as int)),
        decreases lines@.len() - i,
    {
        push_str(out, "DA:");
        push_decimal(out, lines[i] as u64);
        push_str(out, ",1\n");
        assert(lines@.take(i + 1).drop_last() =~= lines@.take(i as int));
        i = i + 1;
    }
    assert(lines@.take(lines@.len() as int) =~= lines@);
    let ghost base2 = out@;
    let ghost bf = branch_facts(*d);
    let mut k: usize = 0;
    assert(bf.take(0) =~= Seq::<(LocationView, u64)>::empty());
    while k < d.branches.len()
        invariant
            k <= d.branches@.len(),
            bf == branch_facts(*d),
            out@ == base2 + brda_text(file_branches(bf.take(k as int), f@)),
        decreases d.branches@.len() - k,
    {
        let (loc, info) = (&d.branches[k].0, &d.branches[k].1);
        assert(bf.take(k + 1).drop_last() =~= bf.take(k as int));
        let count: u64 = if info.taken {
            info.count
        } else {
            0
        };
        assert(bf[k as int] == (loc@, count));
        let ghost prev = out@;
        assert(bf.take(k + 1).last() == bf[k as int]);
        if loc.file == *f {
            push_str(out, "BRDA:");
            push_decimal(out, loc.line as u64);
            push_str(out, ",0,0,");
            push_decimal(out, count);
            push_str(out, "\n");
            assert(out@ =~= prev + "BRDA:"@ + decimal(loc.line as nat) + ",0,0,"@ + decimal(
                count as nat,
            ) + "\n"@);
            let ghost fb = file_branches(bf.take(k as int), f@);
            assert(file_branches(bf.take(k + 1), f@) == fb.push((loc.line, count)));
            assert(fb.push((loc.line, count)).drop_last() =~= fb);
            assert(out@ =~= base2 + brda_text(file_branches(bf.take(k + 1), f@)));
        } else {
            assert(file_branches(bf.take(k + 1), f@) == file_branches(bf.take(k as int), f@));
        }
        k = k + 1;
    }
    assert(bf.take(bf.len() as int) =~= bf);
    push_str(out, "end_of_record\n");
    assert(out@ =~= old(out)@ + file_block(*d, f@));
}

/// The LCOV report of `coverage_data`: per file, `SF:`, the function summary,
/// a `DA:` record per covered line, a `BRDA:` record per branch and
/// `end_of_record`. Files are sorted by path and lines by number; branches keep
/// their order.
pub fn render_lcov(coverage_data: &CoverageData) -> (r: String)
    ensures
        r@ == lcov_text(*coverage_data),
{
    let files = report_file_list(coverage_data);
    let ghost fs = texts(files@);
    let mut out = String::new();
    let mut j: usize = 0;
    assert(fs.take(0) =~= Seq::<Seq<char>>::empty());
    while j < files.len()
        invariant
            j <= files@.len(),
            fs == texts(files@),
            out@ == blocks(*coverage_data, fs.take(j as int)),
        decreases files@.len() - j,
    {
        push_file_block(&mut out, coverage_data, &files[j]);
        assert(fs.take(j + 1).drop_last() =~= fs.take(j as int));
        assert(fs[j as int] == files@[j as int]@);
        j = j + 1;
    }
    assert(fs.take(fs.len() as int) =~= fs);
    out
}

/// The report has one block per distinct file named by a covered line or a
/// branch, files sorted by path, and in each file's block one `DA:` record per
/// distinct covered line number of that file, in increasing order.
pub proof fn lemma_lcov_blocks(d: CoverageData)
    ensures
        lcov_text(d) == blocks(d, report_files(d)),
        report_files(d).no_duplicates(),
        strictly_sorted(report_files(d), lex_order()),
        forall|f: Seq<char>|
            report_files(d).contains(f) <==> ((exists|k: int|
                0 <= k < d.lines@.len() && (#[trigger] d.lines@[k]).file@ == f) || (exists|k: int|
                0 <= k < d.branches@.len() && (#[trigger] d.branches@[k]).0.file@ == f)),
        forall|f: Seq<char>| (#[trigger] file_lines(d.line_views(), f)).no_duplicates(),
        forall|f: Seq<char>| strictly_sorted(#[trigger] file_lines(d.line_views(), f), num_order()),
        forall|f: Seq<char>, n: u32|
            #[trigger] file_lines(d.line_views(), f).contains(n) <==> exists|c: u32|
                d.line_set().contains((f, n, c)),
{
    let names = named_files(d);
    lemma_orders_are_total();
    lemma_sorted_distinct(names, lex_order());
    let nl = d.line_views().map_values(|v: LocationView| v.0);
    let nb = d.branch_locations().map_values(|v: LocationView| v.0);
    assert forall|f: Seq<char>|
        report_files(d).contains(f) <==> ((exists|k: int|
            0 <= k < d.lines@.len() && (#[trigger] d.lines@[k]).file@ == f) || (exists|k: int|
            0 <= k < d.branches@.len() && (#[trigger] d.branches@[k]).0.file@ == f)) by {
        if names.contains(f) {
            let k = choose|k: int| 0 <= k < names.len() && names[k] == f;
            if k < nl.len() {
                assert(d.lines@[k].file@ == names[k]);
            } else {
                assert(d.branches@[k - nl.len()].0.file@ == names[k]);
            }
        }
        if exists|k: int| 0 <= k < d.lines@.len() && (#[trigger] d.lines@[k]).file@ == f {
            let k = choose|k: int| 0 <= k < d.lines@.len() && (#[trigger] d.lines@[k]).file@ == f;
            assert(names[k] == f);
        }
        if exists|k: int| 0 <= k < d.branches@.len() && (#[trigger] d.branches@[k]).0.file@ == f {
            let k = choose|k: int|
                0 <= k < d.branches@.len() && (#[trigger] d.branches@[k]).0.file@ == f;
            assert(names[nl.len() + k] == f);
        }
    }
    assert forall|f: Seq<char>| (#[trigger] file_lines(d.line_views(), f)).no_duplicates()
        && strictly_sorted(file_lines(d.line_views(), f), num_order()) by {
        lemma_file_lines(d.line_views(), f);
    }
    assert forall|f: Seq<char>, n: u32|
        #[trigger] file_lines(d.line_views(), f).contains(n) <==> exists|c: u32|
            d.line_set().contains((f, n, c)) by {
        let s = d.line_views();
        lemma_file_lines(s, f);
        if file_lines(s, f).contains(n) {
            let k = choose|k: int| 0 <= k < s.len() && (#[trigger] s[k]).0 == f && s[k].1 == n;
            assert(s[k] == (f, n, s[k].2));
            assert(d.line_set().contains((f, n, s[k].2)));
        }
        if exists|c: u32| d.line_set().contains((f, n, c)) {
            let c = choose|c: u32| d.line_set().contains((f, n, c));
            let k = choose|k: int| 0 <= k < s.len() && s[k] == (f, n, c);
            assert(s[k].0 == f && s[k].1 == n);
        }
    }
}

/// The lines of `s` as `str::lines` gives them.
pub open spec fn source_lines(s: Seq<char>) -> Seq<Seq<char>> {
    Seq::new(line_count(s), |j: int| text_line(split_on(s, '\n'), j))
}

/// A numeral right-aligned in two columns.
pub open spec fn pad2(s: Seq<char>) -> Seq<char> {
    if s.len() < 2 {
        seq![' '] + s
    } else {
        s
    }
}

/// One line of the annotated listing: a marker, the line number and the text.
pub open spec fn annotated_line(covered: bool, n: nat, text: Seq<char>) -> Seq<char> {
    (if covered {
        " "@
    } else {
        "# "@
    }) + pad2(decimal(n)) + " "@ + text + "\n"@
}

/// The annotated listing of the lines `ls` of file `f`, numbered from one.
pub open spec fn annotated(d: CoverageData, f: Seq<char>, ls: Seq<Seq<char>>) -> Seq<char>
    decreases ls.len(),
{
    if ls.len() == 0 {
        Seq::<char>::empty()
    } else {
        let n = ls.len();
        annotated(d, f, ls.drop_last()) + annotated_line(
            n <= u32::MAX && file_lines(d.line_views(), f).contains(n as u32),
            n,
            ls.last(),
        )
    }
}

fn push_annotated_line(out: &mut String, covered: bool, n: u64, cs: &Vec<char>, lo: usize, hi: usize)
    requires
        lo <= hi <= cs@.len(),
    ensures
        final(out)@ == old(out)@ + annotated_line(
            covered,
            n as nat,
            cs@.subrange(lo as int, hi as int),
        ),
{
    if covered {
        push_str(out, " ");
    } else {
        push_str(out, "# ");
    }
    let ghost mid = out@;
    if n < 10 {
        push_str(out, " ");
    }
    push_decimal(out, n);
    proof {
        if n >= 10 {
            assert(decimal(n as nat) == decimal((n / 10) as nat).push(
                crate::text::digit_char((n % 10) as nat),
            ));
            let m = (n / 10) as nat;
            if m >= 10 {
                assert(decimal(m) == decimal(m / 10).push(crate::text::digit_char(m % 10)));
            }
            assert(decimal(n as nat).len() >= 2);
        } else {
            assert(decimal(n as nat).len() == 1);
        }
        assert(" "@ =~= seq![' ']) by {
            reveal_strlit(" ");
        }
        assert(out@ =~= mid + pad2(decimal(n as nat)));
    }
    push_str(out, " ");
    push_range(out, cs, lo, hi);
    push_str(out, "\n");
    assert(out@ =~= old(out)@ + annotated_line(covered, n as nat, cs@.subrange(lo as int, hi as int)));
}

/// `source` with each line marked as covered or not in `file_path`, and numbered.
pub fn format_source_with_coverage(
    source: &str,
    coverage_data: &CoverageData,
    file_path: &str,
) -> (r: String)
    ensures
        r@ == annotated(*coverage_data, file_path@, source_lines(source@)),
{
    let f = file_path.to_owned();
    let covered = covered_lines_of(coverage_data, &f);
    let cs = chars_of(source);
    let pieces = split_ranges(&cs, 0, cs.len(), '\n');
    assert(cs@.subrange(0, cs@.len() as int) =~= source@);
    proof {
        lemma_split_on_nonempty(source@, '\n');
    }
    let ghost p = split_on(source@, '\n');
    let ghost ls = source_lines(source@);
    let n_lines: usize = if cs.len() == 0 || cs[cs.len() - 1] == '\n' {
        pieces.len() - 1
    } else {
        pieces.len()
    };
    assert(n_lines == ls.len());
    let mut out = String::new();
    let mut j: usize = 0;
    assert(ls.take(0) =~= Seq::<Seq<char>>::empty());
    while j < n_lines
        invariant
            j <= n_lines == ls.len(),
            n_lines <= pieces@.len() == p.len(),
            p == split_on(source@, '\n'),
            ls == source_lines(source@),
            cs@ == source@,
            covered@ == file_lines(coverage_data.line_views(), f@),
            f@ == file_path@,
            forall|k: int|
                0 <= k < pieces@.len() ==> (#[trigger] pieces@[k]).0 <= pieces@[k].1 <= cs@.len()
                    && cs@.subrange(pieces@[k].0 as int, pieces@[k].1 as int) == p[k],
            out@ == annotated(*coverage_data, file_path@, ls.take(j as int)),
        decreases n_lines - j,
    {
        let (lo, hi0) = pieces[j];
        let mut hi = hi0;
        if j + 1 < pieces.len() && hi0 > lo && cs[hi0 - 1] == '\r' {
            hi = hi0 - 1;
        }
        assert(cs@.subrange(lo as int, hi as int) =~= ls[j as int]);
        let n: u64 = j as u64 + 1;
        let is_covered = n <= 0xffff_ffff && contains_u32(&covered, n as u32);
        push_annotated_line(&mut out, is_covered, n, &cs, lo, hi);
        proof {
            let t = ls.take(j + 1);
            assert(t.drop_last() =~= ls.take(j as int));
            assert(t.last() == ls[j as int]);
            assert(t.len() == n);
        }
        j = j + 1;
    }
    assert(ls.take(ls.len() as int) =~= ls);
    out
}

} // verus!
