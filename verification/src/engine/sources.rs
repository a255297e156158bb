//! What is known of each source, by its name.

use crate::binary64::Binary64;
use crate::config::SourceMetrics;
use crate::text::same_text;
use vstd::prelude::*;

verus! {

/// The metrics of a source as contracts see them.
#[verifier::ext_equal]
pub struct MetricsView {
    pub raw_shannon: Binary64,
    pub min_entropy: Binary64,
    pub samples: nat,
    pub avg_raw_entropy: Binary64,
    pub total_bits_contributed: Binary64,
    pub health_state: Seq<char>,
}

impl View for SourceMetrics {
    type V = MetricsView;

    open spec fn view(&self) -> MetricsView {
        MetricsView {
            raw_shannon: self.raw_shannon,
            min_entropy: self.min_entropy,
            samples: self.samples as nat,
            avg_raw_entropy: self.avg_raw_entropy,
            total_bits_contributed: self.total_bits_contributed,
            health_state: self.health_state@,
        }
    }
}

/// The metrics of a source of which nothing is known.
pub open spec fn blank_metrics() -> MetricsView {
    MetricsView {
        raw_shannon: Binary64 { bits: 0 },
        min_entropy: Binary64 { bits: 0 },
        samples: 0,
        avg_raw_entropy: Binary64 { bits: 0 },
        total_bits_contributed: Binary64 { bits: 0 },
        health_state: Seq::empty(),
    }
}

/// A source and its metrics.
#[derive(Debug)]
pub struct SourceEntry {
    pub name: String,
    pub metrics: SourceMetrics,
}

impl Clone for SourceEntry {
    fn clone(&self) -> (copy: Self)
        ensures
            copy == *self,
    {
        SourceEntry { name: self.name.clone(), metrics: self.metrics.clone() }
    }
}

/// The sources, each name once, in the order in which they were first heard of.
pub struct SourceTable {
    pub entries: Vec<SourceEntry>,
}

impl View for SourceTable {
    type V = Map<Seq<char>, MetricsView>;

    open spec fn view(&self) -> Map<Seq<char>, MetricsView> {
        Map::new(
            |name: Seq<char>| names_entry(self.entries@, name),
            |name: Seq<char>| self.entries@[entry_index(self.entries@, name)].metrics@,
        )
    }
}

/// Whether an entry has this name.
pub open spec fn names_entry(entries: Seq<SourceEntry>, name: Seq<char>) -> bool {
    exists|i: int| 0 <= i < entries.len() && #[trigger] entries[i].name@ == name
}

/// The index of an entry with this name.
pub open spec fn entry_index(entries: Seq<SourceEntry>, name: Seq<char>) -> int {
    choose|i: int| 0 <= i < entries.len() && #[trigger] entries[i].name@ == name
}

/// What a source is known by, and what is known of it: blank where it was never heard of.
pub open spec fn metrics_of(table: Map<Seq<char>, MetricsView>, name: Seq<char>) -> MetricsView {
    if table.contains_key(name) {
        table[name]
    } else {
        blank_metrics()
    }
}

impl SourceTable {
    /// No name occurs twice.
    pub open spec fn wf(&self) -> bool {
        forall|i: int, j: int|
            0 <= i < j < self.entries@.len() ==> #[trigger] self.entries@[i].name@
                != #[trigger] self.entries@[j].name@
    }

    proof fn lemma_index(&self, i: int)
        requires
            self.wf(),
            0 <= i < self.entries@.len(),
        ensures
            self@.contains_key(self.entries@[i].name@),
            self@[self.entries@[i].name@] == self.entries@[i].metrics@,
    {
        let name = self.entries@[i].name@;
        let k = entry_index(self.entries@, name);
        assert(0 <= k < self.entries@.len() && self.entries@[k].name@ == name);
        assert(k == i);
    }

    /// No sources.
    pub fn new() -> (table: SourceTable)
        ensures
            table.wf(),
            table@ == Map::<Seq<char>, MetricsView>::empty(),
    {
        let table = SourceTable { entries: Vec::new() };
        assert(table@ =~= Map::<Seq<char>, MetricsView>::empty());
        table
    }

    fn find(&self, name: &str) -> (index: Option<usize>)
        requires
            self.wf(),
        ensures
            match index {
                Some(i) => i < self.entries@.len() && self.entries@[i as int].name@ == name@,
                None => !names_entry(self.entries@, name@),
            },
    {
        let mut i: usize = 0;
        while i < self.entries.len()
            invariant
                i <= self.entries.len(),
                forall|j: int| 0 <= j < i ==> #[trigger] self.entries@[j].name@ != name@,
            decreases self.entries.len() - i,
        {
            if same_text(self.entries[i].name.as_str(), name) {
                return Some(i);
            }
            i += 1;
        }
        None
    }

    /// What is known of a source.
    pub fn get(&self, name: &str) -> (metrics: Option<SourceMetrics>)
        requires
            self.wf(),
        ensures
            match metrics {
                Some(m) => self@.contains_key(name@) && self@[name@] == m@,
                None => !self@.contains_key(name@),
            },
    {
        match self.find(name) {
            Some(i) => {
                proof {
                    self.lemma_index(i as int);
                }
                Some(self.entries[i].metrics.clone())
            },
            None => None,
        }
    }

    /// Replaces what is known of a source, or adds the source.
    fn put(&mut self, name: &str, metrics: SourceMetrics)
        requires
            old(self).wf(),
        ensures
            final(self).wf(),
            final(self)@ == old(self)@.insert(name@, metrics@),
    {
        let ghost start = *self;
        match self.find(name) {
            Some(i) => {
                let own: String = self.entries[i].name.clone();
                self.entries.set(i, SourceEntry { name: own, metrics });
                proof {
                    assert(forall|j: int|
                        0 <= j < self.entries@.len() ==> #[trigger] self.entries@[j].name@
                            == start.entries@[j].name@);
                    assert(self.wf());
                    self.lemma_table(start, name@, metrics@, i as int);
                }
            },
            None => {
                self.entries.push(SourceEntry { name: name.to_owned(), metrics });
                proof {
                    let last = start.entries@.len() as int;
                    assert forall|i: int, j: int| 0 <= i < j < self.entries@.len() implies
                        #[trigger] self.entries@[i].name@ != #[trigger] self.entries@[j].name@ by {
                        assert(self.entries@[i] == start.entries@[i]);
                        if j < last {
                            assert(self.entries@[j] == start.entries@[j]);
                        }
                    }
                    self.lemma_table(start, name@, metrics@, last);
                }
            },
        }
    }

    proof fn lemma_table(
        &self,
        start: SourceTable,
        name: Seq<char>,
        metrics: MetricsView,
        at: int,
    )
        requires
            self.wf(),
            start.wf(),
            0 <= at < self.entries@.len(),
            self.entries@[at].name@ == name,
            self.entries@[at].metrics@ == metrics,
            at < start.entries@.len() ==> start.entries@[at].name@ == name && self.entries@.len()
                == start.entries@.len(),
            at >= start.entries@.len() ==> self.entries@.len() == start.entries@.len() + 1,
            forall|j: int|
                0 <= j < start.entries@.len() && j != at ==> #[trigger] self.entries@[j]
                    == start.entries@[j],
        ensures
            self@ == start@.insert(name, metrics),
    {
        let target = start@.insert(name, metrics);
        assert forall|key: Seq<char>| self@.contains_key(key) == target.contains_key(key) by {
            if names_entry(start.entries@, key) && key != name {
                let j = entry_index(start.entries@, key);
                assert(self.entries@[j] == start.entries@[j]);
            }
            if names_entry(self.entries@, key) && key != name {
                let j = entry_index(self.entries@, key);
                assert(j != at);
                assert(self.entries@[j] == start.entries@[j]);
            }
            if key == name {
                assert(self.entries@[at].name@ == name);
            }
        }
        assert forall|key: Seq<char>| self@.contains_key(key) implies self@[key]
            == target[key] by {
            let j = entry_index(self.entries@, key);
            assert(0 <= j < self.entries@.len() && self.entries@[j].name@ == key);
            self.lemma_index(j);
            if j == at {
                assert(key == name);
            } else {
                assert(self.entries@[j] == start.entries@[j]);
                start.lemma_index(j);
                if key == name {
                    assert(self.entries@[at].name@ == self.entries@[j].name@);
                    assert(false);
                }
            }
        }
        assert(self@ =~= target);
    }

    /// Notes the state of a source's health tests.
    pub fn set_health(&mut self, name: &str, health: &str)
        requires
            old(self).wf(),
        ensures
            final(self).wf(),
            final(self)@ == old(self)@.insert(
                name@,
                (MetricsView { health_state: health@, ..metrics_of(old(self)@, name@) }),
            ),
    {
        let mut metrics: SourceMetrics = match self.get(name) {
            Some(m) => m,
            None => SourceMetrics::default(),
        };
        metrics.health_state = health.to_owned();
        assert(metrics@ =~= (MetricsView {
            health_state: health@,
            ..metrics_of(self@, name@)
        }));
        self.put(name, metrics);
    }

    /// Notes a batch of a source. `blend` is the mean of its Shannon entropies with this batch
    /// blended in, which a first batch does not need; `total` is its credit with this batch's added.
    pub fn record(
        &mut self,
        name: &str,
        raw_shannon: Binary64,
        min_entropy: Binary64,
        blend: Binary64,
        total: Binary64,
    )
        requires
            old(self).wf(),
            metrics_of(old(self)@, name@).samples < u64::MAX,
        ensures
            final(self).wf(),
            final(self)@ == old(self)@.insert(
                name@,
                recorded(metrics_of(old(self)@, name@), raw_shannon, min_entropy, blend, total),
            ),
    {
        let mut metrics: SourceMetrics = match self.get(name) {
            Some(m) => m,
            None => SourceMetrics::default(),
        };
        metrics.samples = metrics.samples + 1;
        metrics.raw_shannon = raw_shannon;
        metrics.min_entropy = min_entropy;
        metrics.total_bits_contributed = total;
        metrics.avg_raw_entropy = if metrics.samples == 1 {
            raw_shannon
        } else {
            blend
        };
        assert(metrics_of(self@, name@).health_state =~= metrics@.health_state);
        self.put(name, metrics);
    }
}

/// The metrics of a source after one more batch.
pub open spec fn recorded(
    before: MetricsView,
    raw_shannon: Binary64,
    min_entropy: Binary64,
    blend: Binary64,
    total: Binary64,
) -> MetricsView {
    MetricsView {
        raw_shannon,
        min_entropy,
        samples: before.samples + 1,
        avg_raw_entropy: if before.samples == 0 {
            raw_shannon
        } else {
            blend
        },
        total_bits_contributed: total,
        health_state: before.health_state,
    }
}

/// A batch counts once and leaves the state of the health tests as it was. The mean of a first batch
/// is its own Shannon entropy, whatever was blended; later the blend is taken.
pub proof fn law_batches_are_counted(
    before: MetricsView,
    raw_shannon: Binary64,
    min_entropy: Binary64,
    blend: Binary64,
    total: Binary64,
    other_blend: Binary64,
)
    ensures
        ({
            let after = recorded(before, raw_shannon, min_entropy, blend, total);
            let other = recorded(before, raw_shannon, min_entropy, other_blend, total);
            &&& after.samples == before.samples + 1
            &&& after.health_state == before.health_state
            &&& after.raw_shannon == raw_shannon
            &&& after.min_entropy == min_entropy
            &&& after.total_bits_contributed == total
            &&& before.samples == 0 ==> after == other && after.avg_raw_entropy == raw_shannon
            &&& before.samples > 0 ==> after.avg_raw_entropy == blend
        }),
{
}

/// What is noted of one source leaves what is known of every other as it was.
pub proof fn law_sources_are_independent(
    table: Map<Seq<char>, MetricsView>,
    name: Seq<char>,
    other: Seq<char>,
    metrics: MetricsView,
)
    requires
        name != other,
    ensures
        metrics_of(table.insert(name, metrics), other) == metrics_of(table, other),
        metrics_of(table.insert(name, metrics), name) == metrics,
        !table.contains_key(name) ==> metrics_of(table, name).samples == 0 && metrics_of(
            table,
            name,
        ).health_state.len() == 0,
{
}

} // verus!
