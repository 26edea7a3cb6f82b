//! The table of all shadows.
use crate::config::{in_dir, Config, EntryView};
use crate::devcontainer::{get_container_status, status_of, ContainerStatus};
use crate::moment::{
    age, age_at, format_age, is_reading, nanos_between, reading_comes_from_the_clock, whole_seconds,
    Moment,
};
use crate::path::{
    components, lemma_components_nonempty, lemma_joined, lemma_stripped, same_path, starts_with,
    stripped, FsPath,
};
use crate::sequences::concat;
use crate::shadow::MetaView;
use crate::text::{fill, lemma_encoding_len, pad_left, pad_right, shown, trimmed};
use crate::walk::Found;
use vstd::prelude::*;
use vstd::utf8::{decode_utf8_encode_utf8, encode_utf8, valid_utf8};

verus! {

/// A line of the table.
#[derive(Debug)]
pub struct Row {
    pub name: String,
    pub source: String,
    pub age: String,
    pub status: String,
}

/// The contents of a [`Row`].
#[verifier::ext_equal]
pub struct RowView {
    pub name: Seq<char>,
    pub source: Seq<char>,
    pub age: Seq<char>,
    pub status: Seq<char>,
}

impl View for Row {
    type V = RowView;

    open spec fn view(&self) -> RowView {
        RowView {
            name: self.name@,
            source: self.source@,
            age: self.age@,
            status: self.status@,
        }
    }
}

impl DeepView for Row {
    type V = RowView;

    open spec fn deep_view(&self) -> RowView {
        self@
    }
}

/// A shadow's name in the table: its path below its root.
pub open spec fn row_name(place: Seq<u8>, root: Seq<u8>) -> Seq<char> {
    match stripped(place, root) {
        Some(below) => shown(below),
        None => shown(place),
    }
}

/// A shadow that was found, how old it is, and how its container is.
#[derive(Debug)]
pub struct Listed {
    shadow: Found,
    age: String,
    status: ContainerStatus,
}

/// The contents of a [`Listed`].
pub struct ListedView {
    pub place: Seq<u8>,
    pub meta: MetaView,
    pub age: Seq<char>,
    pub status: ContainerStatus,
}

impl DeepView for Listed {
    type V = ListedView;

    closed spec fn deep_view(&self) -> ListedView {
        ListedView {
            place: self.shadow.place@,
            meta: self.shadow.meta@,
            age: self.age@,
            status: self.status,
        }
    }
}

/// A shadow as it is listed at `now`, given what was answered when its container was asked for.
pub open spec fn listed_at(place: Seq<u8>, meta: MetaView, now: Moment, answer: Seq<u8>) -> ListedView {
    ListedView {
        place,
        meta,
        age: age(whole_seconds(nanos_between(now, meta.created_at))),
        status: status_of(trimmed(shown(answer))),
    }
}

impl Listed {
    /// A shadow as it is listed at `now`; `stdout` is what was answered when its container was asked
    /// for.
    pub fn at(shadow: Found, now: Moment, stdout: &[u8]) -> (res: Listed)
        requires
            now.valid(),
            shadow.meta@.created_at.valid(),
        ensures
            res.deep_view() == listed_at(shadow.place@, shadow.meta@, now, stdout@),
    {
        let age = age_at(now, shadow.meta.created_at);
        Listed { shadow, age, status: get_container_status(stdout) }
    }

    /// A shadow as it is listed now, by the clock.
    pub fn new(shadow: Found, stdout: &[u8]) -> (res: Listed)
        requires
            shadow.meta@.created_at.valid(),
        ensures
            exists|now: Moment| #[trigger]
                now.valid() && res.deep_view() == listed_at(
                    shadow.place@,
                    shadow.meta@,
                    now,
                    stdout@,
                ),
            exists|now: Moment| #[trigger]
                is_reading(now) && res.deep_view() == listed_at(
                    shadow.place@,
                    shadow.meta@,
                    now,
                    stdout@,
                ),
    {
        let ghost created_at = shadow.meta.created_at;
        let text = format_age(shadow.meta.created_at);
        proof {
            let now = choose|now: Moment| #[trigger]
                is_reading(now) && text@ == age(whole_seconds(nanos_between(now, created_at)));
            reading_comes_from_the_clock(now);
            assert(now.valid() && is_reading(now));
        }
        Listed { shadow, age: text, status: get_container_status(stdout) }
    }
}

/// The line for a shadow under `root`.
pub open spec fn row_of(listed: ListedView, root: Seq<u8>) -> RowView {
    RowView {
        name: row_name(listed.place, root),
        source: shown(listed.meta.source),
        age: listed.age,
        status: listed.status.word(),
    }
}

/// The lines for the shadows under `root`, in the order in which they were found.
pub open spec fn rows_under(listing: Seq<ListedView>, root: Seq<u8>) -> Seq<RowView> {
    listing.map_values(|listed: ListedView| row_of(listed, root))
}

/// The lines for the shadows under each shadow root: those of the first filesystem, then those of the
/// next. There is a listing for each filesystem, in the same order.
pub open spec fn rows_for(entries: Seq<EntryView>, listings: Seq<Seq<ListedView>>) -> Seq<RowView> {
    concat(
        Seq::new(
            if entries.len() < listings.len() {
                entries.len()
            } else {
                listings.len()
            },
            |i: int| rows_under(listings[i], entries[i].shadow_root),
        ),
    )
}

fn row(listed: &Listed, root: &FsPath) -> (res: Row)
    ensures
        res@ == row_of(listed.deep_view(), root@),
{
    let name = match listed.shadow.place.strip_prefix(root) {
        Some(below) => below.display(),
        None => listed.shadow.place.display(),
    };
    Row {
        name,
        source: listed.shadow.meta.source.display(),
        age: listed.age.as_str().to_owned(),
        status: listed.status.to_text(),
    }
}

/// One line for each shadow under each shadow root.
pub fn rows(config: &Config, listings: &Vec<Vec<Listed>>) -> (res: Vec<Row>)
    ensures
        res.deep_view() == rows_for(config.entries(), listings.deep_view()),
{
    let ghost entries = config.entries();
    let ghost lists = listings.deep_view();
    let ghost parts = Seq::new(
        if entries.len() < lists.len() {
            entries.len()
        } else {
            lists.len()
        },
        |i: int| rows_under(lists[i], entries[i].shadow_root),
    );
    assert(entries.len() == config.filesystem@.len());
    assert(lists.len() == listings@.len());
    let mut out: Vec<Row> = Vec::new();
    let mut i: usize = 0;
    assert(parts.take(0) =~= seq![]);
    assert(out.deep_view() =~= concat(parts.take(0)));
    while i < config.filesystem.len() && i < listings.len()
        invariant
            entries == config.entries(),
            lists == listings.deep_view(),
            entries.len() == config.filesystem@.len(),
            lists.len() == listings@.len(),
            parts == Seq::new(
                if entries.len() < lists.len() {
                    entries.len()
                } else {
                    lists.len()
                },
                |i: int| rows_under(lists[i], entries[i].shadow_root),
            ),
            i <= parts.len(),
            out.deep_view() == concat(parts.take(i as int)),
        decreases parts.len() - i,
    {
        let root = &config.filesystem[i].shadow_root;
        let list = &listings[i];
        let ghost before = out.deep_view();
        let ghost items = list.deep_view();
        let ghost part = rows_under(items, root@);
        let mut j: usize = 0;
        assert(items.len() == list@.len());
        assert(before + part.take(0) =~= before);
        while j < list.len()
            invariant
                items == list.deep_view(),
                items.len() == list@.len(),
                part == rows_under(items, root@),
                j <= list@.len(),
                out.deep_view() == before + part.take(j as int),
            decreases list@.len() - j,
        {
            let ghost sofar = out.deep_view();
            assert(items[j as int] == list@[j as int].deep_view());
            out.push(row(&list[j], root));
            assert(out.deep_view() =~= sofar.push(part[j as int]));
            assert(out.deep_view() =~= before + part.take(j + 1));
            j = j + 1;
        }
        proof {
            assert(part.take(j as int) =~= part);
            assert(lists[i as int] == items);
            assert(entries[i as int] == config.filesystem@[i as int]@);
            assert(parts[i as int] == part);
            assert(parts.take(i + 1).drop_last() =~= parts.take(i as int));
        }
        i = i + 1;
    }
    assert(parts.take(i as int) =~= parts);
    out
}

/// The width of a column: that of the longest cell in bytes, but at least that of its title.
pub open spec fn column_width(cells: Seq<Seq<char>>, least: nat) -> nat
    decreases cells.len(),
{
    if cells.len() == 0 {
        least
    } else {
        let before = column_width(cells.drop_last(), least);
        let len = encode_utf8(cells.last()).len();
        if len > before {
            len
        } else {
            before
        }
    }
}

/// The cells of each column.
pub open spec fn names(rows: Seq<RowView>) -> Seq<Seq<char>> {
    rows.map_values(|r: RowView| r.name)
}

pub open spec fn sources(rows: Seq<RowView>) -> Seq<Seq<char>> {
    rows.map_values(|r: RowView| r.source)
}

pub open spec fn ages(rows: Seq<RowView>) -> Seq<Seq<char>> {
    rows.map_values(|r: RowView| r.age)
}

pub open spec fn statuses(rows: Seq<RowView>) -> Seq<Seq<char>> {
    rows.map_values(|r: RowView| r.status)
}

/// The titles of the columns.
pub open spec fn titles() -> RowView {
    RowView { name: "NAME"@, source: "SOURCE"@, age: "AGE"@, status: "CONTAINER"@ }
}

/// A line of the table of these rows: the cells, with spaces up to the width of their column after
/// them, or before them where they are ages.
pub open spec fn line(r: RowView, rows: Seq<RowView>) -> Seq<char> {
    r.name + fill(r.name, column_width(names(rows), 4)) + " "@ + (r.source + fill(
        r.source,
        column_width(sources(rows), 6),
    )) + " "@ + (fill(r.age, column_width(ages(rows), 3)) + r.age) + " "@ + (r.status + fill(
        r.status,
        column_width(statuses(rows), 9),
    ))
}

/// The lines of the table of these rows.
pub open spec fn table(rows: Seq<RowView>) -> Seq<Seq<char>> {
    seq![line(titles(), rows)] + rows.map_values(|r: RowView| line(r, rows))
}

struct Widths {
    name: usize,
    source: usize,
    age: usize,
    status: usize,
}

spec fn fits(widths: Widths, rows: Seq<RowView>) -> bool {
    &&& widths.name == column_width(names(rows), 4)
    &&& widths.source == column_width(sources(rows), 6)
    &&& widths.age == column_width(ages(rows), 3)
    &&& widths.status == column_width(statuses(rows), 9)
}

fn larger(width: usize, cell: &str) -> (res: usize)
    ensures
        res == (if encode_utf8(cell@).len() > width {
            encode_utf8(cell@).len()
        } else {
            width as nat
        }),
{
    let len: usize = cell.as_bytes_vec().len();
    if len > width {
        len
    } else {
        width
    }
}

fn widths_of(rows: &Vec<Row>) -> (res: Widths)
    ensures
        fits(res, rows.deep_view()),
{
    let ghost all = rows.deep_view();
    assert(all.len() == rows@.len());
    let mut out = Widths { name: 4, source: 6, age: 3, status: 9 };
    let mut i: usize = 0;
    while i < rows.len()
        invariant
            all == rows.deep_view(),
            all.len() == rows@.len(),
            i <= rows@.len(),
            fits(out, all.take(i as int)),
        decreases rows@.len() - i,
    {
        let r = &rows[i];
        proof {
            let next = all.take(i + 1);
            let sofar = all.take(i as int);
            assert(all[i as int] == r@);
            assert(names(next).drop_last() =~= names(sofar));
            assert(sources(next).drop_last() =~= sources(sofar));
            assert(ages(next).drop_last() =~= ages(sofar));
            assert(statuses(next).drop_last() =~= statuses(sofar));
        }
        out =
        Widths {
            name: larger(out.name, r.name.as_str()),
            source: larger(out.source, r.source.as_str()),
            age: larger(out.age, r.age.as_str()),
            status: larger(out.status, r.status.as_str()),
        };
        i = i + 1;
    }
    assert(all.take(i as int) =~= all);
    out
}

fn line_text(name: &str, source: &str, age: &str, status: &str, widths: &Widths, rows: &Vec<Row>) -> (res:
    String)
    requires
        fits(*widths, rows.deep_view()),
    ensures
        res@ == line(
            RowView { name: name@, source: source@, age: age@, status: status@ },
            rows.deep_view(),
        ),
{
    let mut out = pad_right(name, widths.name);
    out.append(" ");
    out.append(pad_right(source, widths.source).as_str());
    out.append(" ");
    out.append(pad_left(age, widths.age).as_str());
    out.append(" ");
    out.append(pad_right(status, widths.status).as_str());
    out
}

/// List all shadows: the lines of the table, or nothing where there are none.
pub fn run(config: &Config, listings: &Vec<Vec<Listed>>) -> (res: Option<Vec<String>>)
    ensures
        ({
            let all = rows_for(config.entries(), listings.deep_view());
            match res {
                Some(lines) => all.len() > 0 && lines.deep_view() == table(all),
                None => all.len() == 0,
            }
        }),
{
    let all = rows(config, listings);
    assert(all.deep_view().len() == all@.len());
    render(&all)
}

/// The lines of the table of these rows, or nothing where there are none.
pub fn render(rows: &Vec<Row>) -> (res: Option<Vec<String>>)
    ensures
        match res {
            Some(lines) => rows@.len() > 0 && lines.deep_view() == table(rows.deep_view()),
            None => rows@.len() == 0,
        },
{
    if rows.len() == 0 {
        return None;
    }
    let ghost all = rows.deep_view();
    assert(all.len() == rows@.len());
    let widths = widths_of(rows);
    let mut lines: Vec<String> = Vec::new();
    lines.push(line_text("NAME", "SOURCE", "AGE", "CONTAINER", &widths, rows));
    let mut i: usize = 0;
    assert(lines.deep_view() =~= table(all).take(1));
    while i < rows.len()
        invariant
            all == rows.deep_view(),
            all.len() == rows@.len(),
            fits(widths, all),
            i <= rows@.len(),
            lines.deep_view() == table(all).take(i + 1),
        decreases rows@.len() - i,
    {
        let r = &rows[i];
        let ghost before = lines.deep_view();
        let text = line_text(
            r.name.as_str(),
            r.source.as_str(),
            r.age.as_str(),
            r.status.as_str(),
            &widths,
            rows,
        );
        let ghost words = text@;
        lines.push(text);
        proof {
            assert(all[i as int] =~= r@);
            assert(table(all)[i + 1] == line(r@, all));
            assert(lines.deep_view() =~= before.push(words));
            assert(lines.deep_view() =~= table(all).take(i + 2));
        }
        i = i + 1;
    }
    assert(table(all).take(i + 1) =~= table(all));
    Some(lines)
}

/// What is said where there are no shadows.
pub fn nothing_found() -> (res: String)
    ensures
        res@ == "No shadows found."@,
{
    "No shadows found.".to_owned()
}

/// The lines for the shadows under the first `n` roots.
proof fn lemma_rows(entries: Seq<EntryView>, listings: Seq<Seq<ListedView>>, n: int)
    requires
        0 <= n <= entries.len(),
        n <= listings.len(),
    ensures
        ({
            let parts = Seq::new(
                n as nat,
                |i: int| rows_under(listings[i], entries[i].shadow_root),
            );
            let all = concat(listings.take(n));
            &&& concat(parts).len() == all.len()
            &&& forall|k: int|
                0 <= k < all.len() ==> {
                    &&& (#[trigger] concat(parts)[k]).source == shown(all[k].meta.source)
                    &&& concat(parts)[k].age == all[k].age
                    &&& concat(parts)[k].status == all[k].status.word()
                    &&& exists|i: int|
                        0 <= i < n && listings[i].contains(all[k]) && concat(parts)[k].name
                            == row_name(all[k].place, (#[trigger] entries[i]).shadow_root)
                }
        }),
    decreases n,
{
    let parts = Seq::new(n as nat, |i: int| rows_under(listings[i], entries[i].shadow_root));
    let all = concat(listings.take(n));
    if n > 0 {
        let m = n - 1;
        lemma_rows(entries, listings, m);
        let fewer = Seq::new(m as nat, |i: int| rows_under(listings[i], entries[i].shadow_root));
        assert(parts.drop_last() =~= fewer);
        assert(listings.take(n).drop_last() =~= listings.take(m));
        let before = concat(listings.take(m));
        assert(all =~= before + listings[m]);
        assert forall|k: int| 0 <= k < all.len() implies {
            &&& (#[trigger] concat(parts)[k]).source == shown(all[k].meta.source)
            &&& concat(parts)[k].age == all[k].age
            &&& concat(parts)[k].status == all[k].status.word()
            &&& exists|i: int|
                0 <= i < n && listings[i].contains(all[k]) && concat(parts)[k].name == row_name(
                    all[k].place,
                    (#[trigger] entries[i]).shadow_root,
                )
        } by {
            if k < before.len() {
                assert(concat(parts)[k] == concat(fewer)[k]);
                assert(all[k] == before[k]);
                let i = choose|i: int|
                    0 <= i < m && listings[i].contains(before[k]) && concat(fewer)[k].name
                        == row_name(before[k].place, (#[trigger] entries[i]).shadow_root);
                assert(0 <= i < n && listings[i].contains(all[k]) && concat(parts)[k].name
                    == row_name(all[k].place, entries[i].shadow_root));
            } else {
                let t = k - before.len();
                assert(all[k] == listings[m][t]);
                assert(concat(parts)[k] == row_of(listings[m][t], entries[m].shadow_root));
                assert(listings[m].contains(all[k]));
                assert(concat(parts)[k].name == row_name(all[k].place, entries[m].shadow_root));
            }
        }
    } else {
        assert(listings.take(0) =~= seq![]);
        assert(all =~= seq![]);
        assert(parts =~= seq![]);
    }
}

/// The table has one line for each shadow that was found under each root, in the order in which they
/// were found: its name under that root, its source, its age and its container.
pub proof fn one_row_for_each_shadow(entries: Seq<EntryView>, listings: Seq<Seq<ListedView>>)
    requires
        entries.len() == listings.len(),
    ensures
        ({
            let lines = rows_for(entries, listings);
            let all = concat(listings);
            &&& lines.len() == all.len()
            &&& forall|k: int|
                0 <= k < all.len() ==> {
                    &&& (#[trigger] lines[k]).source == shown(all[k].meta.source)
                    &&& lines[k].age == all[k].age
                    &&& lines[k].status == all[k].status.word()
                    &&& exists|i: int|
                        0 <= i < entries.len() && listings[i].contains(all[k]) && lines[k].name
                            == row_name(all[k].place, (#[trigger] entries[i]).shadow_root)
                }
        }),
{
    lemma_rows(entries, listings, entries.len() as int);
    assert(listings.take(entries.len() as int) =~= listings);
}

proof fn lemma_column_width(cells: Seq<Seq<char>>, least: nat)
    ensures
        column_width(cells, least) >= least,
        forall|i: int|
            0 <= i < cells.len() ==> (#[trigger] cells[i]).len() <= column_width(cells, least),
    decreases cells.len(),
{
    if cells.len() > 0 {
        let front = cells.drop_last();
        lemma_column_width(front, least);
        assert forall|i: int| 0 <= i < cells.len() implies (#[trigger] cells[i]).len()
            <= column_width(cells, least) by {
            lemma_encoding_len(cells[i]);
            if i < front.len() {
                assert(front[i] == cells[i]);
            }
        }
    }
}

proof fn lemma_line_len(r: RowView, rows: Seq<RowView>)
    requires
        r.name.len() <= column_width(names(rows), 4),
        r.source.len() <= column_width(sources(rows), 6),
        r.age.len() <= column_width(ages(rows), 3),
        r.status.len() <= column_width(statuses(rows), 9),
    ensures
        line(r, rows).len() == column_width(names(rows), 4) + column_width(sources(rows), 6)
            + column_width(ages(rows), 3) + column_width(statuses(rows), 9) + 3,
{
    reveal_strlit(" ");
}

/// The columns stand one below the other: all lines of the table are of one length.
pub proof fn columns_line_up(rows: Seq<RowView>, i: int)
    requires
        0 <= i < table(rows).len(),
    ensures
        table(rows)[i].len() == column_width(names(rows), 4) + column_width(sources(rows), 6)
            + column_width(ages(rows), 3) + column_width(statuses(rows), 9) + 3,
{
    lemma_column_width(names(rows), 4);
    lemma_column_width(sources(rows), 6);
    lemma_column_width(ages(rows), 3);
    lemma_column_width(statuses(rows), 9);
    reveal_strlit("NAME");
    reveal_strlit("SOURCE");
    reveal_strlit("AGE");
    reveal_strlit("CONTAINER");
    if i == 0 {
        lemma_line_len(titles(), rows);
    } else {
        let r = rows[i - 1];
        assert(names(rows)[i - 1] == r.name);
        assert(sources(rows)[i - 1] == r.source);
        assert(ages(rows)[i - 1] == r.age);
        assert(statuses(rows)[i - 1] == r.status);
        lemma_line_len(r, rows);
    }
}

/// The name in the table leads back to the shadow: taken as a path within the shadow root, it is the
/// shadow's own. A name that is no text is shown with a stand-in, and leads nowhere.
pub proof fn listed_name_leads_back(place: Seq<u8>, root: Seq<u8>)
    requires
        root.len() > 0,
        starts_with(place, root),
        valid_utf8(stripped(place, root)->0),
    ensures
        same_path(in_dir(root, row_name(place, root)), place),
{
    let below = stripped(place, root)->0;
    lemma_components_nonempty(root);
    lemma_stripped(place, root);
    decode_utf8_encode_utf8(below);
    lemma_joined(root, below);
    let k = components(root).len() as int;
    assert(components(place) =~= components(root) + components(place).skip(k));
}

/// A column is as wide as its longest cell in bytes, or as its title where that is longer.
pub proof fn column_fits_its_longest_cell(cells: Seq<Seq<char>>, least: nat)
    ensures
        column_width(cells, least) >= least,
        forall|i: int|
            0 <= i < cells.len() ==> encode_utf8(#[trigger] cells[i]).len() <= column_width(
                cells,
                least,
            ),
        column_width(cells, least) == least || exists|i: int|
            0 <= i < cells.len() && column_width(cells, least) == encode_utf8(
                #[trigger] cells[i],
            ).len(),
    decreases cells.len(),
{
    if cells.len() > 0 {
        let front = cells.drop_last();
        column_fits_its_longest_cell(front, least);
        assert forall|i: int| 0 <= i < cells.len() implies encode_utf8(#[trigger] cells[i]).len()
            <= column_width(cells, least) by {
            if i < front.len() {
                assert(front[i] == cells[i]);
            }
        }
        if column_width(cells, least) != least {
            if column_width(cells, least) == encode_utf8(cells.last()).len() {
                assert(cells[cells.len() - 1] == cells.last());
            } else {
                let i = choose|i: int|
                    0 <= i < front.len() && column_width(front, least) == encode_utf8(
                        #[trigger] front[i],
                    ).len();
                assert(cells[i] == front[i]);
            }
        }
    }
}

/// The table is its titles and then a line for each row, in order; a line is the cells of its row in
/// columns as wide as the cells of all rows ask for, with a space between: ages stand at the right of
/// theirs, the other cells at the left.
pub proof fn lines_show_their_rows(rows: Seq<RowView>, i: int, r: RowView)
    requires
        0 <= i < rows.len(),
    ensures
        table(rows).len() == rows.len() + 1,
        table(rows)[0] == line(
            RowView { name: "NAME"@, source: "SOURCE"@, age: "AGE"@, status: "CONTAINER"@ },
            rows,
        ),
        table(rows)[i + 1] == line(rows[i], rows),
        ({
            let w1 = column_width(Seq::new(rows.len(), |k: int| rows[k].name), 4);
            let w2 = column_width(Seq::new(rows.len(), |k: int| rows[k].source), 6);
            let w3 = column_width(Seq::new(rows.len(), |k: int| rows[k].age), 3);
            let w4 = column_width(Seq::new(rows.len(), |k: int| rows[k].status), 9);
            line(r, rows) == r.name + fill(r.name, w1) + seq![' '] + r.source + fill(r.source, w2)
                + seq![' '] + fill(r.age, w3) + r.age + seq![' '] + r.status + fill(r.status, w4)
        }),
{
    reveal_strlit(" ");
    assert(" "@ =~= seq![' ']);
    assert(names(rows) =~= Seq::new(rows.len(), |k: int| rows[k].name));
    assert(sources(rows) =~= Seq::new(rows.len(), |k: int| rows[k].source));
    assert(ages(rows) =~= Seq::new(rows.len(), |k: int| rows[k].age));
    assert(statuses(rows) =~= Seq::new(rows.len(), |k: int| rows[k].status));
    let w1 = column_width(names(rows), 4);
    let w2 = column_width(sources(rows), 6);
    let w3 = column_width(ages(rows), 3);
    let w4 = column_width(statuses(rows), 9);
    assert(line(r, rows) =~= r.name + fill(r.name, w1) + seq![' '] + r.source + fill(r.source, w2)
        + seq![' '] + fill(r.age, w3) + r.age + seq![' '] + r.status + fill(r.status, w4));
}

/// A row tells of its shadow: its path below the root that it was found under, or its whole path where
/// it does not begin with that root; its source; how long ago it was made; what its container does.
pub proof fn rows_tell_of_their_shadows(
    place: Seq<u8>,
    meta: MetaView,
    now: Moment,
    answer: Seq<u8>,
    root: Seq<u8>,
)
    ensures
        ({
            let listed = listed_at(place, meta, now, answer);
            let r = row_of(listed, root);
            &&& listed.place == place
            &&& listed.meta == meta
            &&& listed.age == age(whole_seconds(nanos_between(now, meta.created_at)))
            &&& listed.status == status_of(trimmed(shown(answer)))
            &&& stripped(place, root) matches Some(below) ==> r.name == shown(below)
            &&& stripped(place, root) is None ==> r.name == shown(place)
            &&& r.source == shown(meta.source)
            &&& r.age == listed.age
            &&& r.status == listed.status.word()
        }),
{
}

/// The rows of one root more come behind the others, each for a shadow that was found under that
/// root; a filesystem without a listing adds none.
pub proof fn roots_are_listed_in_order(
    entries: Seq<EntryView>,
    listings: Seq<Seq<ListedView>>,
    entry: EntryView,
    listing: Seq<ListedView>,
)
    requires
        entries.len() == listings.len(),
    ensures
        rows_for(entries.push(entry), listings.push(listing)) == rows_for(entries, listings)
            + Seq::new(listing.len(), |k: int| row_of(listing[k], entry.shadow_root)),
        rows_for(entries.push(entry), listings) == rows_for(entries, listings),
        rows_for(seq![], listings) == Seq::<RowView>::empty(),
{
    let before = Seq::new(
        entries.len(),
        |i: int| rows_under(listings[i], entries[i].shadow_root),
    );
    let more_entries = entries.push(entry);
    let more_listings = listings.push(listing);
    let all = Seq::new(
        more_entries.len(),
        |i: int| rows_under(more_listings[i], more_entries[i].shadow_root),
    );
    assert(all.drop_last() =~= before);
    assert(all.last() =~= Seq::new(listing.len(), |k: int| row_of(listing[k], entry.shadow_root)));
    assert(rows_for(more_entries, more_listings) =~= rows_for(entries, listings) + all.last());
    assert(Seq::new(
        listings.len(),
        |i: int| rows_under(listings[i], more_entries[i].shadow_root),
    ) =~= before);
    let none = Seq::<EntryView>::empty();
    assert(Seq::new(0nat, |i: int| rows_under(listings[i], none[i].shadow_root)) =~= seq![]);
}

/// A table is drawn exactly where there is a row to show.
pub proof fn table_is_drawn_for_any_row(
    config: &Config,
    listings: &Vec<Vec<Listed>>,
    res: Option<Vec<String>>,
    message: String,
)
    requires
        call_ensures(run, (config, listings), res),
        call_ensures(nothing_found, (), message),
    ensures
        res is Some <==> rows_for(config.entries(), listings.deep_view()).len() > 0,
        res matches Some(lines) ==> lines.deep_view() == table(
            rows_for(config.entries(), listings.deep_view()),
        ),
        message@ == "No shadows found."@,
{
}

} // verus!
