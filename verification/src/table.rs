use vstd::prelude::*;
use crate::order::{
    first_index, first_seen, is_first_index, lemma_first_index, lemma_first_seen_contains,
    lemma_first_seen_order, lemma_first_seen_push, seen_before,
};
use crate::record::{views, BenchmarkRecord, RecordView};

verus! {

/// The records of one implementation within one family, in the order in
/// which the report gave them.
#[derive(Debug, Clone, PartialEq, Eq)]
pub struct Series {
    pub implementation: String,
    pub records: Vec<BenchmarkRecord>,
}

pub struct SeriesView {
    pub implementation: Seq<char>,
    pub records: Seq<RecordView>,
}

impl View for Series {
    type V = SeriesView;

    open spec fn view(&self) -> SeriesView {
        SeriesView { implementation: self.implementation@, records: views(self.records@) }
    }
}

/// The series of one benchmark family, one per implementation, in the order
/// in which the implementations were first seen.
#[derive(Debug, Clone, PartialEq, Eq)]
pub struct FamilyGroup {
    pub family: String,
    pub series: Vec<Series>,
}

pub struct GroupView {
    pub family: Seq<char>,
    pub series: Seq<SeriesView>,
}

pub open spec fn series_views(series: Seq<Series>) -> Seq<SeriesView> {
    Seq::new(series.len(), |k: int| series[k]@)
}

impl View for FamilyGroup {
    type V = GroupView;

    open spec fn view(&self) -> GroupView {
        GroupView { family: self.family@, series: series_views(self.series@) }
    }
}

pub open spec fn group_views(groups: Seq<FamilyGroup>) -> Seq<GroupView> {
    Seq::new(groups.len(), |g: int| groups[g]@)
}

pub open spec fn family_key() -> spec_fn(RecordView) -> Seq<char> {
    |r: RecordView| r.family
}

pub open spec fn implementation_key() -> spec_fn(RecordView) -> Seq<char> {
    |r: RecordView| r.implementation
}

/// The records to which `key` gives `name`.
pub open spec fn keyed(key: spec_fn(RecordView) -> Seq<char>, name: Seq<char>) -> spec_fn(
    RecordView,
) -> bool {
    |r: RecordView| key(r) == name
}

/// The names that `key` gives to the records, each once, in first-seen order.
pub open spec fn names(records: Seq<RecordView>, key: spec_fn(RecordView) -> Seq<char>) -> Seq<
    Seq<char>,
> {
    first_seen(records.map_values(key))
}

/// The records to which `key` gives `name`, in their order.
pub open spec fn selected(
    records: Seq<RecordView>,
    key: spec_fn(RecordView) -> Seq<char>,
    name: Seq<char>,
) -> Seq<RecordView> {
    records.filter(keyed(key, name))
}

/// The group of a family, given the records of that family.
pub open spec fn group_from(own: Seq<RecordView>, family: Seq<char>) -> GroupView {
    let implementations = names(own, implementation_key());
    GroupView {
        family,
        series: Seq::new(
            implementations.len(),
            |k: int|
                SeriesView {
                    implementation: implementations[k],
                    records: selected(own, implementation_key(), implementations[k]),
                },
        ),
    }
}

/// The grouping of a run of records: one group per family and, within it,
/// one series per implementation, both in first-seen order; each series
/// holds every record of its family and implementation, in encounter order.
pub open spec fn table_of(records: Seq<RecordView>) -> Seq<GroupView> {
    let families = names(records, family_key());
    Seq::new(
        families.len(),
        |g: int| group_from(selected(records, family_key(), families[g]), families[g]),
    )
}

/// The implementations of a run of series, in order.
pub open spec fn series_names(series: Seq<SeriesView>) -> Seq<Seq<char>> {
    Seq::new(series.len(), |k: int| series[k].implementation)
}

/// The families of a run of groups, in order.
pub open spec fn group_names(table: Seq<GroupView>) -> Seq<Seq<char>> {
    Seq::new(table.len(), |g: int| table[g].family)
}

/// The series that holds one record and nothing else.
pub open spec fn lone_series(r: RecordView) -> SeriesView {
    SeriesView { implementation: r.implementation, records: seq![r] }
}

/// The group that holds one record and nothing else.
pub open spec fn lone_group(r: RecordView) -> GroupView {
    GroupView { family: r.family, series: seq![lone_series(r)] }
}

/// A group after one more record of its family: the record is appended to
/// the series of its implementation, which is added last if it is new.
pub open spec fn group_with(group: GroupView, r: RecordView) -> GroupView {
    let listed = series_names(group.series);
    if listed.contains(r.implementation) {
        let k = first_index(listed, r.implementation);
        GroupView {
            family: group.family,
            series: group.series.update(
                k,
                SeriesView {
                    implementation: group.series[k].implementation,
                    records: group.series[k].records.push(r),
                },
            ),
        }
    } else {
        GroupView { family: group.family, series: group.series.push(lone_series(r)) }
    }
}

/// A table after one more record: the record goes to the group of its
/// family, which is added last if it is new.
pub open spec fn table_with(table: Seq<GroupView>, r: RecordView) -> Seq<GroupView> {
    let listed = group_names(table);
    if listed.contains(r.family) {
        let g = first_index(listed, r.family);
        table.update(g, group_with(table[g], r))
    } else {
        table.push(lone_group(r))
    }
}

proof fn lemma_names_push(
    records: Seq<RecordView>,
    key: spec_fn(RecordView) -> Seq<char>,
    r: RecordView,
)
    ensures
        names(records.push(r), key) == if names(records, key).contains(key(r)) {
            names(records, key)
        } else {
            names(records, key).push(key(r))
        },
{
    records.lemma_push_map_commute(key, r);
    lemma_first_seen_push(records.map_values(key), key(r));
}

proof fn lemma_selected_push(
    records: Seq<RecordView>,
    key: spec_fn(RecordView) -> Seq<char>,
    name: Seq<char>,
    r: RecordView,
)
    ensures
        selected(records.push(r), key, name) == if key(r) == name {
            selected(records, key, name).push(r)
        } else {
            selected(records, key, name)
        },
{
    records.lemma_filter_push(r, keyed(key, name));
}

proof fn lemma_selected_absent(
    records: Seq<RecordView>,
    key: spec_fn(RecordView) -> Seq<char>,
    name: Seq<char>,
)
    requires
        !names(records, key).contains(name),
    ensures
        selected(records, key, name) == Seq::<RecordView>::empty(),
{
    let found = selected(records, key, name);
    if found.len() > 0 {
        records.lemma_filter_pred(keyed(key, name), 0);
        assert(found.contains(found[0]));
        records.lemma_filter_contains_rev(keyed(key, name), found[0]);
        let i = choose|i: int| 0 <= i < records.len() && records[i] == found[0];
        assert(records.map_values(key)[i] == name);
        lemma_first_seen_contains(records.map_values(key), name);
    }
}

proof fn lemma_names_distinct(records: Seq<RecordView>, key: spec_fn(RecordView) -> Seq<char>)
    ensures
        names(records, key).no_duplicates(),
{
    lemma_first_seen_order(records.map_values(key));
}

/// Adding a record of a family to the records of that family adds it to the
/// family's group.
proof fn lemma_group_grows(own: Seq<RecordView>, family: Seq<char>, r: RecordView)
    ensures
        group_from(own.push(r), family) == group_with(group_from(own, family), r),
{
    let key = implementation_key();
    let before = group_from(own, family);
    let after = group_from(own.push(r), family);
    let listed = names(own, key);
    lemma_names_push(own, key, r);
    lemma_names_distinct(own, key);
    assert(series_names(before.series) == listed);
    assert forall|k: int| 0 <= k < listed.len() implies selected(own.push(r), key, listed[k]) == (
    if listed[k] == r.implementation {
        selected(own, key, listed[k]).push(r)
    } else {
        selected(own, key, listed[k])
    }) by {
        lemma_selected_push(own, key, listed[k], r);
    }
    if listed.contains(r.implementation) {
        let k = choose|k: int| 0 <= k < listed.len() && listed[k] == r.implementation;
        assert(is_first_index(listed, r.implementation, k));
        lemma_first_index(listed, r.implementation, k);
        assert(after.series =~= group_with(before, r).series);
    } else {
        lemma_selected_absent(own, key, r.implementation);
        lemma_selected_push(own, key, r.implementation, r);
        assert(selected(own.push(r), key, r.implementation) == seq![r]);
        assert(after.series =~= group_with(before, r).series);
    }
}

/// Grouping one record more is the same as adding that record to the
/// grouping so far: it goes to the end of the series of its family and
/// implementation, and a family or an implementation that was not seen
/// before is added after those that were.
pub proof fn lemma_table_grows(records: Seq<RecordView>, r: RecordView)
    ensures
        table_of(records.push(r)) == table_with(table_of(records), r),
{
    let key = family_key();
    let before = table_of(records);
    let after = table_of(records.push(r));
    let listed = names(records, key);
    lemma_names_push(records, key, r);
    lemma_names_distinct(records, key);
    assert(group_names(before) == listed);
    assert forall|g: int| 0 <= g < listed.len() implies selected(
        records.push(r),
        key,
        listed[g],
    ) == (if listed[g] == r.family {
        selected(records, key, listed[g]).push(r)
    } else {
        selected(records, key, listed[g])
    }) by {
        lemma_selected_push(records, key, listed[g], r);
    }
    if listed.contains(r.family) {
        let g = choose|g: int| 0 <= g < listed.len() && listed[g] == r.family;
        assert(is_first_index(listed, r.family, g));
        lemma_first_index(listed, r.family, g);
        lemma_group_grows(selected(records, key, r.family), r.family, r);
        assert(after =~= table_with(before, r));
    } else {
        lemma_selected_absent(records, key, r.family);
        lemma_selected_push(records, key, r.family, r);
        let own = Seq::<RecordView>::empty();
        lemma_group_grows(own, r.family, r);
        assert(names(own, implementation_key()) == Seq::<Seq<char>>::empty());
        assert(group_from(own, r.family).series =~= Seq::<SeriesView>::empty());
        assert(series_names(group_from(own, r.family).series) =~= Seq::<Seq<char>>::empty());
        assert(group_with(group_from(own, r.family), r).series =~= seq![lone_series(r)]);
        assert(group_from(own.push(r), r.family) == lone_group(r));
        assert(after =~= table_with(before, r));
    }
}

/// The families of a grouping stand in the order in which the records first
/// named them, each once.
pub proof fn lemma_families_in_first_seen_order(records: Seq<RecordView>)
    ensures
        ({
            let table = table_of(records);
            let named = records.map_values(family_key());
            &&& group_names(table) == first_seen(named)
            &&& group_names(table).no_duplicates()
            &&& forall|r: int|
                0 <= r < records.len() ==> group_names(table).contains(
                    (#[trigger] records[r]).family,
                )
            &&& forall|g: int, h: int|
                0 <= g < h < table.len() ==> seen_before(
                    named,
                    (#[trigger] table[g]).family,
                    (#[trigger] table[h]).family,
                )
        }),
{
    let table = table_of(records);
    let named = records.map_values(family_key());
    lemma_first_seen_order(named);
    assert(group_names(table) == first_seen(named));
    assert forall|r: int| 0 <= r < records.len() implies group_names(table).contains(
        (#[trigger] records[r]).family,
    ) by {
        assert(named[r] == records[r].family);
        assert(named.contains(records[r].family));
    }
    assert forall|g: int, h: int| 0 <= g < h < table.len() implies seen_before(
        named,
        (#[trigger] table[g]).family,
        (#[trigger] table[h]).family,
    ) by {
        assert(table[g].family == first_seen(named)[g]);
        assert(table[h].family == first_seen(named)[h]);
    }
}

/// Within a family the implementations stand in the order in which the
/// records of that family first named them, each once, and the series of an
/// implementation holds the records of that family and implementation, in
/// the order of the records.
pub proof fn lemma_implementations_in_first_seen_order(records: Seq<RecordView>, g: int)
    requires
        0 <= g < table_of(records).len(),
    ensures
        ({
            let group = table_of(records)[g];
            let own = selected(records, family_key(), group.family);
            let named = own.map_values(implementation_key());
            &&& series_names(group.series) == first_seen(named)
            &&& series_names(group.series).no_duplicates()
            &&& forall|r: int|
                0 <= r < own.len() ==> series_names(group.series).contains(
                    (#[trigger] own[r]).implementation,
                )
            &&& forall|i: int, j: int|
                0 <= i < j < group.series.len() ==> seen_before(
                    named,
                    (#[trigger] group.series[i]).implementation,
                    (#[trigger] group.series[j]).implementation,
                )
            &&& forall|k: int|
                0 <= k < group.series.len() ==> (#[trigger] group.series[k]).records == selected(
                    own,
                    implementation_key(),
                    group.series[k].implementation,
                )
        }),
{
    let group = table_of(records)[g];
    let own = selected(records, family_key(), group.family);
    let named = own.map_values(implementation_key());
    lemma_first_seen_order(named);
    assert(series_names(group.series) == first_seen(named));
    assert forall|r: int| 0 <= r < own.len() implies series_names(group.series).contains(
        (#[trigger] own[r]).implementation,
    ) by {
        assert(named[r] == own[r].implementation);
        assert(named.contains(own[r].implementation));
    }
    assert forall|i: int, j: int| 0 <= i < j < group.series.len() implies seen_before(
        named,
        (#[trigger] group.series[i]).implementation,
        (#[trigger] group.series[j]).implementation,
    ) by {
        assert(group.series[i].implementation == first_seen(named)[i]);
        assert(group.series[j].implementation == first_seen(named)[j]);
    }
}

impl FamilyGroup {
    /// The place of the series of `implementation`, if there is one.
    fn find(&self, implementation: &String) -> (r: Option<usize>)
        ensures
            match r {
                Some(k) => is_first_index(series_names(self@.series), implementation@, k as int),
                None => !series_names(self@.series).contains(implementation@),
            },
    {
        let mut k: usize = 0;
        while k < self.series.len()
            invariant
                k <= self.series.len(),
                forall|j: int| 0 <= j < k ==> series_names(self@.series)[j] != implementation@,
            decreases self.series.len() - k,
        {
            if self.series[k].implementation == *implementation {
                return Some(k);
            }
            k += 1;
        }
        None
    }

    /// Appends a record of this family to the series of its implementation.
    fn insert(&mut self, record: BenchmarkRecord)
        ensures
            final(self)@ == group_with(old(self)@, record@),
    {
        let ghost before = self@;
        let ghost r = record@;
        match self.find(&record.implementation) {
            Some(k) => {
                proof {
                    lemma_first_index(series_names(before.series), r.implementation, k as int);
                    assert(series_names(before.series).contains(r.implementation));
                }
                let ghost earlier = self.series[k as int].records@;
                self.series[k].records.push(record);
                proof {
                    assert(views(earlier.push(record)) == views(earlier).push(r));
                    assert(self@.series =~= group_with(before, r).series);
                }
            },
            None => {
                let implementation = record.implementation.clone();
                let mut records: Vec<BenchmarkRecord> = Vec::new();
                records.push(record);
                self.series.push(Series { implementation, records });
                proof {
                    assert(views(seq![record]) == seq![r]);
                    assert(self@.series =~= group_with(before, r).series);
                }
            },
        }
    }
}

/// The accumulator of the aggregation: it takes the parsed records one by
/// one and keeps them grouped by family and implementation.
pub struct AggregationTable {
    groups: Vec<FamilyGroup>,
    seen: Ghost<Seq<RecordView>>,
}

impl View for AggregationTable {
    type V = Seq<GroupView>;

    closed spec fn view(&self) -> Seq<GroupView> {
        group_views(self.groups@)
    }
}

impl AggregationTable {
    /// Every record that the table took, in the order in which it took them.
    pub closed spec fn records(&self) -> Seq<RecordView> {
        self.seen@
    }

    /// The groups of a table are the grouping of the records that it took.
    pub open spec fn wf(&self) -> bool {
        self@ == table_of(self.records())
    }

    /// A table that has taken no record.
    pub fn new() -> (table: AggregationTable)
        ensures
            table.wf(),
            table.records() == Seq::<RecordView>::empty(),
    {
        let table = AggregationTable { groups: Vec::new(), seen: Ghost(Seq::empty()) };
        assert(table@ =~= table_of(table.records()));
        table
    }

    /// The place of the group of `family`, if there is one.
    fn find(&self, family: &String) -> (r: Option<usize>)
        ensures
            match r {
                Some(g) => is_first_index(group_names(self@), family@, g as int),
                None => !group_names(self@).contains(family@),
            },
    {
        let mut g: usize = 0;
        while g < self.groups.len()
            invariant
                g <= self.groups.len(),
                forall|j: int| 0 <= j < g ==> group_names(self@)[j] != family@,
            decreases self.groups.len() - g,
        {
            if self.groups[g].family == *family {
                return Some(g);
            }
            g += 1;
        }
        None
    }

    /// Takes one more record: it is appended to the series of its family
    /// and implementation, each created on first sight.
    pub fn insert(&mut self, record: BenchmarkRecord)
        requires
            old(self).wf(),
        ensures
            final(self).wf(),
            final(self).records() == old(self).records().push(record@),
    {
        let ghost before = self@;
        let ghost r = record@;
        proof {
            lemma_table_grows(self.seen@, r);
        }
        match self.find(&record.family) {
            Some(g) => {
                proof {
                    lemma_first_index(group_names(before), r.family, g as int);
                    assert(group_names(before).contains(r.family));
                }
                self.groups[g].insert(record);
                assert(self@ =~= table_with(before, r));
            },
            None => {
                let family = record.family.clone();
                let implementation = record.implementation.clone();
                let mut records: Vec<BenchmarkRecord> = Vec::new();
                records.push(record);
                let mut series: Vec<Series> = Vec::new();
                series.push(Series { implementation, records });
                self.groups.push(FamilyGroup { family, series });
                proof {
                    assert(views(seq![record]) == seq![r]);
                    assert(self.groups[self.groups.len() - 1]@.series =~= lone_group(r).series);
                    assert(self@ =~= table_with(before, r));
                }
            },
        }
        self.seen = Ghost(self.seen@.push(r));
    }

    /// The groups, one per family, in the order in which the families were
    /// first seen.
    pub fn groups(&self) -> (groups: &Vec<FamilyGroup>)
        ensures
            group_views(groups@) == self@,
    {
        &self.groups
    }
}

/// Groups a run of records by family and, within each family, by
/// implementation. Nothing is reordered and nothing is dropped.
pub fn aggregate(records: Vec<BenchmarkRecord>) -> (table: AggregationTable)
    ensures
        table.wf(),
        table.records() == views(records@),
{
    let ghost all = views(records@);
    let ghost items = records@;
    let mut table = AggregationTable::new();
    for record in it: records.into_iter()
        invariant
            it.seq() == items,
            all == views(items),
            table.wf(),
            table.records() == all.take(it.index() as int),
    {
        proof {
            assert(all.take(it.index() + 1) == all.take(it.index() as int).push(record@));
        }
        table.insert(record);
    }
    assert(all.take(items.len() as int) == all);
    table
}

} // verus!
