//! The report: one row for each reported dependency, in ascending order of
//! size, and the total of the rows.

use crate::decimal::decimal_text;
use crate::package::{
    declaration_views, package_views, texts, DependencyDeclaration, PackageView, ResolvedPackage,
};
use crate::precedence::{precedence, Precedence};
use crate::selection::{
    distinct_normal_names, latest, latest_version, lemma_latest_of_two, normal_names,
};
use crate::size_format::{format_size_text, push_size};
use crate::size_table::SizeTable;
use crate::sums::{lemma_sum_of_prefix, lemma_sum_remove, sum};
use vstd::prelude::*;
use vstd::string::*;

verus! {

/// The least width, in characters, of the column of labels.
pub const LABEL_WIDTH: usize = 25;

/// One line of the report: a dependency and the bytes it takes.
pub struct ReportRow {
    /// The package's name and, in parentheses, its version.
    pub label: String,
    pub size: u64,
}

/// A row as contracts speak of it.
pub ghost struct RowView {
    pub label: Seq<char>,
    pub size: nat,
}

impl View for ReportRow {
    type V = RowView;

    open spec fn view(&self) -> RowView {
        RowView { label: self.label@, size: self.size as nat }
    }
}

/// The rows of `rows`, each by its view.
pub open spec fn row_views(rows: Seq<ReportRow>) -> Seq<RowView> {
    rows.map_values(|r: ReportRow| r@)
}

/// The label of a package: its name, then `(v`, its version and `)`.
pub open spec fn label_text(package: PackageView) -> Seq<char> {
    package.name + seq![' ', '(', 'v'] + package.version.text() + seq![')']
}

/// The row that `name` contributes: that of the package that stands for it,
/// with the size recorded for that package. None where no package has the
/// name or no size is recorded for the one that stands for it.
pub open spec fn row_for(
    packages: Seq<PackageView>,
    sizes: Map<PackageView, u64>,
    name: Seq<char>,
) -> Option<RowView> {
    match latest(packages, name) {
        Some(i) => if sizes.contains_key(packages[i]) {
            Some(RowView { label: label_text(packages[i]), size: sizes[packages[i]] as nat })
        } else {
            None
        },
        None => None,
    }
}

/// The rows that `names` contribute, in the order of the names.
pub open spec fn rows_for(
    names: Seq<Seq<char>>,
    packages: Seq<PackageView>,
    sizes: Map<PackageView, u64>,
) -> Seq<RowView>
    decreases names.len(),
{
    if names.len() == 0 {
        Seq::empty()
    } else {
        let before = rows_for(names.drop_last(), packages, sizes);
        match row_for(packages, sizes, names.last()) {
            Some(row) => before.push(row),
            None => before,
        }
    }
}

/// No row is larger than a row after it.
pub open spec fn ascending(rows: Seq<RowView>) -> bool {
    forall|i: int, j: int| 0 <= i <= j < rows.len() ==> rows[i].size <= rows[j].size
}

/// The sizes of the rows, in their order.
pub open spec fn row_sizes(rows: Seq<RowView>) -> Seq<nat> {
    rows.map_values(|r: RowView| r.size)
}

/// The sum of the sizes of the rows.
pub open spec fn total_of(rows: Seq<RowView>) -> nat {
    sum(row_sizes(rows))
}

/// `label` filled up with spaces on the right to `width` characters; a
/// longer label stays as it is.
pub open spec fn padded(label: Seq<char>, width: nat) -> Seq<char> {
    if label.len() >= width {
        label
    } else {
        label + Seq::new((width - label.len()) as nat, |i: int| ' ')
    }
}

/// The line of a row: the padded label, ` : ` and the size as it is shown.
pub open spec fn row_line(row: RowView) -> Seq<char> {
    padded(row.label, LABEL_WIDTH as nat) + seq![' ', ':', ' '] + format_size_text(row.size)
}

/// The words that open the last line.
pub open spec fn total_words() -> Seq<char> {
    seq!['>', ' ', 'T', 'o', 't', 'a', 'l', ' ', 's', 'i', 'z', 'e', ':', ' ']
}

/// The last line: `> Total size: ` and the total as it is shown.
pub open spec fn total_line(total: nat) -> Seq<char> {
    total_words() + format_size_text(total)
}

/// The lines of a report: one for each row, in their order, then the total.
pub open spec fn report_lines(rows: Seq<RowView>, total: nat) -> Seq<Seq<char>> {
    rows.map_values(|r: RowView| row_line(r)).push(total_line(total))
}

/// The label of `package`.
pub fn make_label(package: &ResolvedPackage) -> (label: String)
    ensures
        label@ == label_text(package@),
{
    let mut label = String::new();
    label.append(package.name.as_str());
    label.append(" (v");
    package.version.push_text(&mut label);
    label.append(")");
    proof {
        reveal_strlit(" (v");
        reveal_strlit(")");
        assert(" (v"@ =~= seq![' ', '(', 'v']);
        assert(")"@ =~= seq![')']);
        assert(label@ =~= label_text(package@));
    }
    label
}

/// The rows that `names` contribute, in the order of the names.
pub fn collect_rows(names: &Vec<String>, packages: &Vec<ResolvedPackage>, sizes: &SizeTable) -> (rows:
    Vec<ReportRow>)
    ensures
        row_views(rows@) == rows_for(texts(names@), package_views(packages@), sizes@),
{
    let mut rows: Vec<ReportRow> = Vec::new();
    let mut i: usize = 0;
    assert(texts(names@).take(0) =~= Seq::empty());
    assert(row_views(rows@) =~= Seq::empty());
    while i < names.len()
        invariant
            i <= names.len(),
            row_views(rows@) == rows_for(
                texts(names@).take(i as int),
                package_views(packages@),
                sizes@,
            ),
        decreases names.len() - i,
    {
        let ghost next = texts(names@).take(i + 1);
        assert(next.drop_last() =~= texts(names@).take(i as int));
        assert(next.last() == names@[i as int]@);
        let ghost before = rows@;
        match latest_version(packages, &names[i]) {
            Some(p) => {
                let package = &packages[p];
                assert(package_views(packages@)[p as int] == package@);
                match sizes.get(package) {
                    Some(size) => {
                        rows.push(ReportRow { label: make_label(package), size });
                        assert(row_views(rows@) =~= row_views(before).push(rows@.last()@));
                    },
                    None => {},
                }
            },
            None => {},
        }
        i += 1;
    }
    assert(texts(names@).take(i as int) =~= texts(names@));
    rows
}

/// Putting one more element into a sequence puts it into its multiset.
proof fn lemma_insert_to_multiset<A>(s: Seq<A>, k: int, x: A)
    requires
        0 <= k <= s.len(),
    ensures
        s.insert(k, x).to_multiset() =~= s.to_multiset().insert(x),
{
    let t = s.insert(k, x);
    t.to_multiset_ensures();
    assert(t.remove(k) =~= s);
    assert(t[k] == x);
}

/// Where a row of `size` goes among rows in ascending order: before the
/// first row that is not smaller, behind all rows where there is none.
pub open spec fn place_of(rows: Seq<RowView>, size: nat) -> int
    decreases rows.len(),
{
    if rows.len() == 0 || rows[0].size >= size {
        0
    } else {
        1 + place_of(rows.drop_first(), size)
    }
}

/// `rows` in ascending order of size, rows of one size in the order in
/// which `rows` has them.
pub open spec fn in_ascending_order(rows: Seq<RowView>) -> Seq<RowView>
    decreases rows.len(),
{
    if rows.len() == 0 {
        Seq::empty()
    } else {
        let rest = in_ascending_order(rows.drop_first());
        rest.insert(place_of(rest, rows[0].size), rows[0])
    }
}

/// The place of a row is the one before which all rows are smaller and at
/// which no smaller row stands.
proof fn lemma_place_of(rows: Seq<RowView>, size: nat, k: int)
    requires
        0 <= k <= rows.len(),
        forall|i: int| 0 <= i < k ==> rows[i].size < size,
        k == rows.len() || rows[k].size >= size,
    ensures
        place_of(rows, size) == k,
    decreases k,
{
    if k > 0 {
        assert(rows[0].size < size);
        assert forall|i: int| 0 <= i < k - 1 implies rows.drop_first()[i].size < size by {
            assert(rows.drop_first()[i] == rows[i + 1]);
        }
        lemma_place_of(rows.drop_first(), size, k - 1);
    }
}

/// The rows in ascending order of size; rows of one size keep their order.
pub fn sort_rows(rows: Vec<ReportRow>) -> (sorted: Vec<ReportRow>)
    ensures
        row_views(sorted@) == in_ascending_order(row_views(rows@)),
        ascending(row_views(sorted@)),
        row_views(sorted@).to_multiset() == row_views(rows@).to_multiset(),
{
    let mut rest = rows;
    let mut sorted: Vec<ReportRow> = Vec::new();
    assert(row_views(sorted@) =~= Seq::empty());
    assert(rest@.take(rest@.len() as int) =~= rest@);
    assert(row_views(rows@).skip(rest@.len() as int) =~= Seq::empty());
    assert(row_views(sorted@).to_multiset().add(row_views(rest@).to_multiset()) =~= row_views(
        rows@,
    ).to_multiset()) by {
        row_views(sorted@).to_multiset_ensures();
        assert(row_views(sorted@).to_multiset().len() == 0);
    }
    while rest.len() > 0
        invariant
            rest@.len() <= rows@.len(),
            rest@ == rows@.take(rest@.len() as int),
            row_views(sorted@) == in_ascending_order(row_views(rows@).skip(rest@.len() as int)),
            ascending(row_views(sorted@)),
            row_views(sorted@).to_multiset().add(row_views(rest@).to_multiset()) == row_views(
                rows@,
            ).to_multiset(),
        decreases rest.len(),
    {
        let ghost rest_before = rest@;
        let ghost sorted_before = sorted@;
        let row = rest.pop().unwrap();
        let mut k: usize = 0;
        while k < sorted.len() && sorted[k].size < row.size
            invariant
                k <= sorted.len(),
                forall|i: int| 0 <= i < k ==> sorted@[i].size < row.size,
            decreases sorted.len() - k,
        {
            k += 1;
        }
        let ghost row_view = row@;
        sorted.insert(k, row);
        proof {
            let before = row_views(sorted_before);
            let after = row_views(sorted@);
            assert(after =~= before.insert(k as int, row_view));
            let tail = row_views(rows@).skip(rest@.len() as int);
            assert(rest@ =~= rows@.take(rest@.len() as int));
            assert(tail[0] == row_view);
            assert(tail.drop_first() =~= row_views(rows@).skip(rest_before.len() as int));
            lemma_place_of(before, row_view.size, k as int);
            assert(row_views(rest_before) =~= row_views(rest@).push(row_view));
            lemma_insert_to_multiset(before, k as int, row_view);
            row_views(rest@).to_multiset_ensures();
            assert(after.to_multiset().add(row_views(rest@).to_multiset()) =~= before.to_multiset().add(
                row_views(rest_before).to_multiset(),
            ));
            assert forall|i: int, j: int| 0 <= i <= j < after.len() implies after[i].size
                <= after[j].size by {
                if i < k && j > k {
                    assert(before[i].size <= before[j - 1].size);
                } else if i < k && j < k {
                    assert(before[i].size <= before[j].size);
                } else if i > k {
                    assert(before[i - 1].size <= before[j - 1].size);
                } else if i == k && j > k {
                    assert(before[k as int].size <= before[j - 1].size);
                }
            }
        }
    }
    proof {
        assert(row_views(rest@) =~= Seq::empty());
        assert(row_views(rows@).skip(0) =~= row_views(rows@));
        row_views(rest@).to_multiset_ensures();
        assert(row_views(rest@).to_multiset().len() == 0);
        assert(row_views(sorted@).to_multiset().add(row_views(rest@).to_multiset()) =~= row_views(
            sorted@,
        ).to_multiset());
    }
    sorted
}

/// Rows that are the same rows in another order have the same total.
pub proof fn lemma_total_of_rearranged(a: Seq<RowView>, b: Seq<RowView>)
    requires
        a.to_multiset() == b.to_multiset(),
    ensures
        total_of(a) == total_of(b),
    decreases a.len(),
{
    a.to_multiset_ensures();
    b.to_multiset_ensures();
    assert(a.len() == a.to_multiset().len());
    assert(b.len() == b.to_multiset().len());
    if a.len() == 0 {
        assert(row_sizes(a) =~= row_sizes(b));
    } else {
        let x = a.last();
        assert(a.contains(x));
        assert(b.to_multiset().count(x) > 0);
        assert(b.contains(x));
        let j = choose|j: int| 0 <= j < b.len() && b[j] == x;
        assert(a.drop_last() =~= a.remove(a.len() - 1));
        assert(a.drop_last().to_multiset() =~= b.remove(j).to_multiset());
        lemma_total_of_rearranged(a.drop_last(), b.remove(j));
        lemma_sum_remove(row_sizes(b), j);
        assert(row_sizes(b).remove(j) =~= row_sizes(b.remove(j)));
        assert(row_sizes(a).drop_last() =~= row_sizes(a.drop_last()));
    }
}

/// The sum of the sizes of the rows, or `None` where it is more than 64
/// bits hold.
pub fn total_size(rows: &Vec<ReportRow>) -> (total: Option<u64>)
    ensures
        match total {
            Some(t) => t == total_of(row_views(rows@)),
            None => total_of(row_views(rows@)) > u64::MAX,
        },
{
    let ghost sizes = row_sizes(row_views(rows@));
    let mut total: u64 = 0;
    let mut i: usize = 0;
    assert(sizes.take(0) =~= Seq::empty());
    while i < rows.len()
        invariant
            i <= rows.len(),
            sizes == row_sizes(row_views(rows@)),
            total == sum(sizes.take(i as int)),
        decreases rows.len() - i,
    {
        proof {
            assert(sizes.take(i + 1).drop_last() =~= sizes.take(i as int));
            assert(sizes.take(i + 1).last() == rows@[i as int].size);
            lemma_sum_of_prefix(sizes, i + 1);
        }
        match total.checked_add(rows[i].size) {
            Some(t) => {
                total = t;
            },
            None => {
                return None;
            },
        }
        i += 1;
    }
    assert(sizes.take(i as int) =~= sizes);
    Some(total)
}

/// Appends `label`, filled up with spaces to the width of the label column.
fn push_padded(out: &mut String, label: &str)
    ensures
        final(out)@ == old(out)@ + padded(label@, LABEL_WIDTH as nat),
{
    let n: usize = label.unicode_len();
    out.append(label);
    let mut k: usize = n;
    assert(out@ =~= old(out)@ + label@ + Seq::new(0nat, |i: int| ' '));
    while k < LABEL_WIDTH
        invariant
            n == label@.len(),
            n <= k,
            n < LABEL_WIDTH ==> k <= LABEL_WIDTH,
            n >= LABEL_WIDTH ==> k == n,
            out@ == old(out)@ + label@ + Seq::new((k - n) as nat, |i: int| ' '),
        decreases LABEL_WIDTH - k,
    {
        let ghost before = out@;
        out.append(" ");
        proof {
            reveal_strlit(" ");
            assert(" "@ =~= seq![' ']);
            assert(out@ =~= old(out)@ + label@ + Seq::new((k + 1 - n) as nat, |i: int| ' '));
        }
        k += 1;
    }
    assert(final(out)@ =~= old(out)@ + padded(label@, LABEL_WIDTH as nat));
}

/// The line of `row`.
pub fn render_row(row: &ReportRow) -> (line: String)
    ensures
        line@ == row_line(row@),
{
    let mut line = String::new();
    push_padded(&mut line, row.label.as_str());
    line.append(" : ");
    push_size(&mut line, row.size);
    proof {
        reveal_strlit(" : ");
        assert(" : "@ =~= seq![' ', ':', ' ']);
        assert(line@ =~= row_line(row@));
    }
    line
}

/// The last line of a report whose rows add up to `total`.
pub fn render_total(total: u64) -> (line: String)
    ensures
        line@ == total_line(total as nat),
{
    let mut line = String::new();
    line.append("> Total size: ");
    push_size(&mut line, total);
    proof {
        reveal_strlit("> Total size: ");
        assert("> Total size: "@ =~= total_words());
        assert(line@ =~= total_line(total as nat));
    }
    line
}

/// The rows of a report and their total.
pub struct Report {
    pub rows: Vec<ReportRow>,
    pub total: u64,
}

impl Report {
    /// The rows are in ascending order of size and add up to the total.
    pub open spec fn wf(&self) -> bool {
        &&& ascending(row_views(self.rows@))
        &&& self.total == total_of(row_views(self.rows@))
    }

    /// The lines of the report: one for each row, then the total.
    pub fn lines(&self) -> (lines: Vec<String>)
        ensures
            texts(lines@) == report_lines(row_views(self.rows@), self.total as nat),
    {
        let mut lines: Vec<String> = Vec::new();
        let mut i: usize = 0;
        let ghost row_lines = row_views(self.rows@).map_values(|r: RowView| row_line(r));
        assert(texts(lines@) =~= row_lines.take(0));
        while i < self.rows.len()
            invariant
                i <= self.rows.len(),
                row_lines == row_views(self.rows@).map_values(|r: RowView| row_line(r)),
                texts(lines@) == row_lines.take(i as int),
            decreases self.rows.len() - i,
        {
            let ghost before = lines@;
            lines.push(render_row(&self.rows[i]));
            assert(texts(lines@) =~= texts(before).push(lines@.last()@));
            assert(row_lines.take(i + 1) =~= row_lines.take(i as int).push(row_lines[i as int]));
            i += 1;
        }
        let ghost before = lines@;
        lines.push(render_total(self.total));
        assert(texts(lines@) =~= texts(before).push(lines@.last()@));
        assert(row_lines.take(i as int) =~= row_lines);
        lines
    }
}

/// The report on the normal dependencies that `deps` declares. Each of
/// their package names contributes at most one row: that of the package
/// that stands for the name, the highest version among the packages of that
/// name, with the size recorded for it. The rows come in ascending order of
/// size, rows of one size in the order in which their names are first
/// declared. `None` where the sizes of the rows add up to more than 64 bits
/// hold.
pub fn dependency_report(
    deps: &Vec<DependencyDeclaration>,
    packages: &Vec<ResolvedPackage>,
    sizes: &SizeTable,
) -> (r: Option<Report>)
    ensures
        match r {
            Some(report) => {
                &&& report.wf()
                &&& row_views(report.rows@) == in_ascending_order(
                    rows_for(
                        normal_names(declaration_views(deps@)),
                        package_views(packages@),
                        sizes@,
                    ),
                )
                &&& row_views(report.rows@).to_multiset() == rows_for(
                    normal_names(declaration_views(deps@)),
                    package_views(packages@),
                    sizes@,
                ).to_multiset()
                &&& report.total == total_of(
                    rows_for(
                        normal_names(declaration_views(deps@)),
                        package_views(packages@),
                        sizes@,
                    ),
                )
            },
            None => total_of(
                rows_for(
                    normal_names(declaration_views(deps@)),
                    package_views(packages@),
                    sizes@,
                ),
            ) > u64::MAX,
        },
{
    let names = distinct_normal_names(deps);
    let found = collect_rows(&names, packages, sizes);
    let ghost unsorted = row_views(found@);
    let rows = sort_rows(found);
    proof {
        lemma_total_of_rearranged(row_views(rows@), unsorted);
    }
    match total_size(&rows) {
        Some(total) => Some(Report { rows, total }),
        None => None,
    }
}

/// A name contributes one row at most: there are never more rows than
/// names, and as many where every name has a package with a recorded size.
pub proof fn lemma_one_row_for_each_name(
    names: Seq<Seq<char>>,
    packages: Seq<PackageView>,
    sizes: Map<PackageView, u64>,
)
    ensures
        rows_for(names, packages, sizes).len() <= names.len(),
        (forall|i: int| 0 <= i < names.len() ==> row_for(packages, sizes, #[trigger] names[i])
            is Some) ==> rows_for(names, packages, sizes).len() == names.len(),
    decreases names.len(),
{
    if names.len() > 0 {
        lemma_one_row_for_each_name(names.drop_last(), packages, sizes);
        if forall|i: int| 0 <= i < names.len() ==> row_for(packages, sizes, #[trigger] names[i])
            is Some {
            assert forall|i: int| 0 <= i < names.drop_last().len() implies row_for(
                packages,
                sizes,
                #[trigger] names.drop_last()[i],
            ) is Some by {
                assert(names.drop_last()[i] == names[i]);
            }
            assert(row_for(packages, sizes, names[names.len() - 1]) is Some);
        }
    }
}

/// Of two resolved versions of one package the report shows the higher,
/// with the size recorded for it: whichever of the two comes first among
/// the packages, and whichever of the two sizes was recorded first.
pub proof fn lemma_higher_version_is_reported(
    lower: PackageView,
    higher: PackageView,
    lower_size: u64,
    higher_size: u64,
    other_sizes: Map<PackageView, u64>,
)
    requires
        lower.name == higher.name,
        precedence(lower.version, higher.version) == Precedence::Lower,
        precedence(higher.version, lower.version) == Precedence::Higher,
    ensures
        ({
            let lower_first = other_sizes.insert(lower, lower_size).insert(higher, higher_size);
            let higher_first = other_sizes.insert(higher, higher_size).insert(lower, lower_size);
            let row = Some(RowView { label: label_text(higher), size: higher_size as nat });
            &&& lower_first == higher_first
            &&& row_for(seq![lower, higher], lower_first, higher.name) == row
            &&& row_for(seq![higher, lower], lower_first, higher.name) == row
            &&& rows_for(seq![higher.name], seq![lower, higher], lower_first) == seq![row->0]
            &&& rows_for(seq![higher.name], seq![higher, lower], lower_first) == seq![row->0]
        }),
{
    lemma_latest_of_two(lower, higher);
    let lower_first = other_sizes.insert(lower, lower_size).insert(higher, higher_size);
    let higher_first = other_sizes.insert(higher, higher_size).insert(lower, lower_size);
    assert(lower != higher);
    assert(lower_first =~= higher_first);
    let names = seq![higher.name];
    assert(names.drop_last() =~= Seq::<Seq<char>>::empty());
    assert(rows_for(Seq::<Seq<char>>::empty(), seq![lower, higher], lower_first) =~= Seq::<
        RowView,
    >::empty());
    assert(rows_for(Seq::<Seq<char>>::empty(), seq![higher, lower], lower_first) =~= Seq::<
        RowView,
    >::empty());
    let row = RowView { label: label_text(higher), size: higher_size as nat };
    assert(Seq::<RowView>::empty().push(row) =~= seq![row]);
}

/// Without declared dependencies the report has no row, its total is zero,
/// and its only line is `> Total size: 0 bytes`.
pub proof fn lemma_empty_report(packages: Seq<PackageView>, sizes: Map<PackageView, u64>)
    ensures
        rows_for(normal_names(Seq::empty()), packages, sizes) == Seq::<RowView>::empty(),
        total_of(Seq::empty()) == 0,
        report_lines(Seq::empty(), 0) == seq![total_words() + seq!['0', ' ', 'b', 'y', 't', 'e', 's']],
{
    assert(rows_for(normal_names(Seq::empty()), packages, sizes) =~= Seq::<RowView>::empty());
    assert(row_sizes(Seq::empty()) =~= Seq::<nat>::empty());
    assert(decimal_text(0) =~= seq!['0']);
    assert(format_size_text(0) =~= seq!['0', ' ', 'b', 'y', 't', 'e', 's']);
    assert(report_lines(Seq::empty(), 0) =~= seq![total_line(0)]);
}

/// The lines of a report show its rows in their order and end with the
/// total; where the report is well formed, the sizes shown on the rows are
/// ascending and add up to the size shown on the last line.
pub proof fn lemma_lines_show_rows_and_total(rows: Seq<RowView>, total: nat)
    ensures
        report_lines(rows, total).len() == rows.len() + 1,
        forall|i: int| 0 <= i < rows.len() ==> #[trigger] report_lines(rows, total)[i] == row_line(
            rows[i],
        ),
        report_lines(rows, total).last() == total_line(total),
        total == total_of(rows) ==> report_lines(rows, total).last() == total_words()
            + format_size_text(sum(row_sizes(rows))),
{
}

} // verus!
