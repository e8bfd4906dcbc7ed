//! Generators of synthetic rows for compaction workloads: restartable finite sequences.
use vstd::prelude::*;
use rand::rngs::SmallRng;
use vstd::utf8::encode_utf8;

verus! {

broadcast use vstd::seq_lib::group_to_multiset_ensures;

/// rand's small, fast generator.
#[verifier::external_type_specification]
#[verifier::external_body]
pub struct ExSmallRng(SmallRng);

/// Relies on rand::seq::SliceRandom::shuffle: the elements are permuted in place.
#[verifier::external_body]
fn shuffle_values(v: &mut Vec<u32>, rng: &mut SmallRng)
    ensures
        final(v)@.to_multiset() == old(v)@.to_multiset(),
{
    rand::seq::SliceRandom::shuffle(v.as_mut_slice(), rng)
}

/// Relies on rand::seq::IteratorRandom::choose_stable, which returns `None` only for an
/// empty iterator: one of `true` and `false`.
#[verifier::external_body]
fn choose_bool(rng: &mut SmallRng) -> (r: Option<bool>)
    ensures
        r is Some,
{
    rand::seq::IteratorRandom::choose_stable([true, false].iter(), rng).copied()
}

/// Decimal digits of `n` as characters, without leading zeros.
pub open spec fn decimal_chars(n: nat) -> Seq<char>
    decreases n,
{
    if n < 10 {
        seq![(48 + n) as char]
    } else {
        decimal_chars(n / 10).push((48 + n % 10) as char)
    }
}

/// Relies on `format!` with std's `Display` for `str` and `u64`: the text of `base`
/// followed by the decimal digits of `n`.
#[verifier::external_body]
fn base_and_number(base: &str, n: u64) -> (r: String)
    ensures
        r@ == base@ + decimal_chars(n as nat),
{
    format!("{base}{n}")
}

/// The kind of a generated column, recorded in its metadata.
#[derive(Clone, Copy, Debug, PartialEq, Eq, Structural)]
pub enum Metadata {
    Time,
    Tag,
    Field,
    SeriesId,
}

/// The metadata key under which a column's kind is recorded.
pub open spec fn column_type_key() -> Seq<char> {
    "iox::column::type"@
}

/// The recorded kind of each column kind.
pub open spec fn column_type_value(m: Metadata) -> Seq<char> {
    match m {
        Metadata::Time => "iox::column_type::timestamp"@,
        Metadata::Tag => "iox::column_type::tag"@,
        Metadata::Field => "iox::column_type::field::boolean"@,
        Metadata::SeriesId => "iox::column_type::sid"@,
    }
}

impl Metadata {
    /// The metadata of a column of this kind: its one `(key, value)` pair.
    pub fn create(self) -> (r: Vec<(String, String)>)
        ensures
            r@.len() == 1,
            r@[0].0@ == column_type_key(),
            r@[0].1@ == column_type_value(self),
    {
        let value = match self {
            Metadata::Time => "iox::column_type::timestamp".to_owned(),
            Metadata::Tag => "iox::column_type::tag".to_owned(),
            Metadata::Field => "iox::column_type::field::boolean".to_owned(),
            Metadata::SeriesId => "iox::column_type::sid".to_owned(),
        };
        vec![("iox::column::type".to_owned(), value)]
    }
}

/// `0, 1, ..., n - 1`.
pub open spec fn range_seq(n: nat) -> Seq<u32> {
    Seq::new(n, |i: int| i as u32)
}

/// Hands out the values `0..cardinality` once each, in an order drawn at construction.
#[derive(Debug)]
pub struct CardinalityGenerator {
    available: Vec<u32>,
    current: usize,
}

impl View for CardinalityGenerator {
    type V = (Seq<u32>, nat);

    closed spec fn view(&self) -> (Seq<u32>, nat) {
        (self.available@, self.current as nat)
    }
}

impl CardinalityGenerator {
    pub closed spec fn wf(&self) -> bool {
        self.current <= self.available@.len()
    }

    /// A generator over `0..cardinality`, shuffled with `rng`.
    pub fn new(rng: &mut SmallRng, cardinality: u32) -> (r: CardinalityGenerator)
        ensures
            r.wf(),
            r@.0.to_multiset() == range_seq(cardinality as nat).to_multiset(),
            r@.1 == 0,
    {
        let mut available: Vec<u32> = Vec::new();
        let mut i: u32 = 0;
        while i < cardinality
            invariant
                i <= cardinality,
                available@ == range_seq(i as nat),
            decreases cardinality - i,
        {
            available.push(i);
            assert(available@ =~= range_seq((i + 1) as nat));
            i += 1;
        }
        shuffle_values(&mut available, rng);
        CardinalityGenerator { available, current: 0 }
    }

    /// The next value, or `None` once all were handed out.
    pub fn generate(&mut self) -> (r: Option<u32>)
        requires
            old(self).wf(),
        ensures
            final(self).wf(),
            final(self)@.0 == old(self)@.0,
            old(self)@.1 < old(self)@.0.len() ==> r == Some(old(self)@.0[old(self)@.1 as int])
                && final(self)@.1 == old(self)@.1 + 1,
            old(self)@.1 >= old(self)@.0.len() ==> r is None && final(self)@ == old(self)@,
    {
        if self.current < self.available.len() {
            let v = self.available[self.current];
            self.current += 1;
            Some(v)
        } else {
            None
        }
    }

    /// Starts the sequence over.
    pub fn reset(&mut self)
        ensures
            final(self).wf(),
            final(self)@ == (old(self)@.0, 0nat),
    {
        self.current = 0;
    }
}

/// Tag values: an optional base text followed by a value of a cardinality generator.
#[derive(Debug)]
pub struct TagGenerator {
    base: Option<String>,
    cardinality: CardinalityGenerator,
}

impl TagGenerator {
    pub closed spec fn wf(&self) -> bool {
        self.cardinality.wf()
    }

    pub closed spec fn base(&self) -> Seq<char> {
        match self.base {
            Some(b) => b@,
            None => seq![],
        }
    }

    pub closed spec fn values(&self) -> (Seq<u32>, nat) {
        self.cardinality@
    }

    /// A generator over `cardinality` values, shuffled with `rng`, with no base.
    pub fn new(rng: &mut SmallRng, cardinality: u32) -> (r: TagGenerator)
        ensures
            r.wf(),
            r.base() == Seq::<char>::empty(),
            r.values().0.to_multiset() == range_seq(cardinality as nat).to_multiset(),
            r.values().1 == 0,
    {
        TagGenerator { base: None, cardinality: CardinalityGenerator::new(rng, cardinality) }
    }

    /// The same generator with `base` before each value.
    pub fn with_base(self, base: &str) -> (r: TagGenerator)
        ensures
            r.wf() == self.wf(),
            r.base() == base@,
            r.values() == self.values(),
    {
        TagGenerator { base: Some(base.to_owned()), cardinality: self.cardinality }
    }

    /// The next tag value, or `None` once the values are used up.
    pub fn generate(&mut self) -> (r: Option<String>)
        requires
            old(self).wf(),
        ensures
            final(self).wf(),
            final(self).base() == old(self).base(),
            final(self).values().0 == old(self).values().0,
            old(self).values().1 < old(self).values().0.len() ==> (r matches Some(s) && s@ == old(
                self,
            ).base() + decimal_chars(old(self).values().0[old(self).values().1 as int] as nat)
                && final(self).values().1 == old(self).values().1 + 1),
            old(self).values().1 >= old(self).values().0.len() ==> r is None && final(self).values()
                == old(self).values(),
    {
        let card = match self.cardinality.generate() {
            Some(c) => c,
            None => {
                return None;
            },
        };
        let s = match &self.base {
            Some(b) => base_and_number(b.as_str(), card as u64),
            None => base_and_number("", card as u64),
        };
        proof {
            reveal_strlit("");
            assert(""@ + decimal_chars(card as nat) =~= decimal_chars(card as nat));
        }
        Some(s)
    }

    /// Starts the values over.
    pub fn reset(&mut self)
        ensures
            final(self).wf(),
            final(self).base() == old(self).base(),
            final(self).values() == (old(self).values().0, 0nat),
    {
        self.cardinality.reset();
    }
}

/// Timestamps from a start, a fixed interval apart, in nanoseconds.
#[derive(Debug, Clone, Copy)]
pub struct TimeGenerator {
    pub current: i64,
    pub interval: i64,
}

impl TimeGenerator {
    pub fn new(start: i64, interval: i64) -> (r: TimeGenerator)
        ensures
            r.current == start,
            r.interval == interval,
    {
        TimeGenerator { current: start, interval }
    }

    pub fn current(&self) -> (r: i64)
        ensures
            r == self.current,
    {
        self.current
    }

    /// The current time; the generator moves one interval on.
    pub fn generate(&mut self) -> (r: Option<i64>)
        requires
            i64::MIN <= old(self).current + old(self).interval <= i64::MAX,
        ensures
            r == Some(old(self).current),
            final(self).current == old(self).current + old(self).interval,
            final(self).interval == old(self).interval,
    {
        let t = self.current;
        self.current = self.current + self.interval;
        Some(t)
    }
}

/// Relies on rand::SeedableRng::seed_from_u64; the state it gives is not stated.
#[verifier::external_body]
fn seeded_rng(seed: u64) -> SmallRng {
    <SmallRng as rand::SeedableRng>::seed_from_u64(seed)
}

/// Relies on `Clone` of rand's SmallRng; the copy's state is not stated.
#[verifier::external_body]
fn copy_rng(rng: &SmallRng) -> SmallRng {
    rng.clone()
}

/// The SHA-256 digest of `data`, as sha2 computes it.
pub uninterp spec fn sha256_of(data: Seq<u8>) -> Seq<u8>;

/// Relies on sha2::Sha256::digest: the SHA-256 digest of `data`.
#[verifier::external_body]
fn sha256(data: &[u8]) -> (r: [u8; 32])
    ensures
        r@ == sha256_of(data@),
{
    <sha2::Sha256 as sha2::Digest>::digest(data).into()
}

/// Random boolean field values.
#[derive(Debug)]
pub struct FieldGenerator {
    rng: SmallRng,
}

impl FieldGenerator {
    /// A generator drawing from a copy of `rng`.
    pub fn new(rng: &SmallRng) -> FieldGenerator {
        FieldGenerator { rng: copy_rng(rng) }
    }

    /// A value drawn at random; there is always one.
    pub fn generate(&mut self) -> (r: Option<bool>)
        ensures
            r is Some,
    {
        choose_bool(&mut self.rng)
    }
}

/// A tag of a generated row: its column name and value.
#[derive(Debug, Clone)]
pub struct Tag(pub String, pub String);

/// A field of a generated row: its column name and value.
#[derive(Debug, Clone)]
pub struct FieldEntry(pub String, pub bool);

/// One generated row.
#[derive(Debug, Clone)]
pub struct GeneratedRow {
    pub time: i64,
    pub tags: Vec<Tag>,
    pub fields: Vec<FieldEntry>,
    pub series_id: Option<[u8; 32]>,
}

/// `name=value` of a tag, as bytes.
pub open spec fn tag_text(t: (Seq<char>, Seq<char>)) -> Seq<u8> {
    encode_utf8(t.0) + seq![61u8] + encode_utf8(t.1)
}

/// The tags of a row as `name=value` joined by commas, as bytes: what its series id digests.
pub open spec fn series_text(tags: Seq<(Seq<char>, Seq<char>)>) -> Seq<u8>
    decreases tags.len(),
{
    if tags.len() == 0 {
        seq![]
    } else if tags.len() == 1 {
        tag_text(tags[0])
    } else {
        series_text(tags.drop_last()) + seq![44u8] + tag_text(tags.last())
    }
}

pub open spec fn tags_view(tags: Seq<Tag>) -> Seq<(Seq<char>, Seq<char>)> {
    tags.map_values(|t: Tag| (t.0@, t.1@))
}

fn push_bytes(out: &mut Vec<u8>, b: &[u8])
    ensures
        final(out)@ == old(out)@ + b@,
{
    let mut i: usize = 0;
    while i < b.len()
        invariant
            i <= b@.len(),
            out@ == old(out)@ + b@.take(i as int),
        decreases b@.len() - i,
    {
        out.push(b[i]);
        assert(b@.take(i + 1) =~= b@.take(i as int).push(b@[i as int]));
        i += 1;
    }
    assert(b@.take(b@.len() as int) =~= b@);
}

/// The series text of `tags`.
fn series_bytes(tags: &Vec<Tag>) -> (r: Vec<u8>)
    ensures
        r@ == series_text(tags_view(tags@)),
{
    let ghost tv = tags_view(tags@);
    let mut out: Vec<u8> = Vec::new();
    let mut i: usize = 0;
    while i < tags.len()
        invariant
            tv == tags_view(tags@),
            i <= tv.len(),
            out@ == series_text(tv.take(i as int)),
        decreases tv.len() - i,
    {
        let ghost before = out@;
        if i > 0 {
            out.push(44u8);
        }
        push_bytes(&mut out, tags[i].0.as_str().as_bytes());
        out.push(61u8);
        push_bytes(&mut out, tags[i].1.as_str().as_bytes());
        proof {
            let t = tv.take(i + 1);
            assert(t.drop_last() =~= tv.take(i as int));
            assert(t.last() == tv[i as int]);
            if i == 0 {
                assert(out@ =~= tag_text(tv[0]));
            } else {
                assert(out@ =~= before + seq![44u8] + tag_text(tv[i as int]));
            }
        }
        i += 1;
    }
    assert(tv.take(tv.len() as int) =~= tv);
    out
}

/// Rows of a workload: at each time, one row per combination that the tag generators
/// hand out together, until one of them runs out.
#[derive(Debug)]
pub struct RowGenerator {
    time: TimeGenerator,
    tags: Vec<TagGenerator>,
    series_id: bool,
    fields: Vec<FieldGenerator>,
    duplication_factor: usize,
    rng: SmallRng,
}

impl RowGenerator {
    pub closed spec fn wf(&self) -> bool {
        forall|i: int| 0 <= i < self.tags@.len() ==> (#[trigger] self.tags@[i]).wf()
    }

    pub closed spec fn spec_time(&self) -> TimeGenerator {
        self.time
    }

    pub closed spec fn spec_tags(&self) -> Seq<TagGenerator> {
        self.tags@
    }

    pub closed spec fn spec_num_fields(&self) -> nat {
        self.fields@.len()
    }

    pub closed spec fn spec_series_id(&self) -> bool {
        self.series_id
    }

    pub closed spec fn spec_duplication_factor(&self) -> usize {
        self.duplication_factor
    }

    /// A generator from a seed: `num_tags` tag generators over `cardinality` values with
    /// base `value-`, `num_fields` boolean fields, times from `start` every `interval`.
    pub fn new(
        seed: u64,
        start: i64,
        interval: i64,
        num_tags: usize,
        num_fields: usize,
        cardinality: u32,
        series_id: bool,
        duplication_factor: usize,
    ) -> (r: RowGenerator)
        ensures
            r.wf(),
            r.spec_time() == (TimeGenerator { current: start, interval }),
            r.spec_tags().len() == num_tags,
            forall|i: int| 0 <= i < num_tags ==> (#[trigger] r.spec_tags()[i]).base() == "value-"@
                && r.spec_tags()[i].values().1 == 0 && r.spec_tags()[i].values().0.to_multiset()
                == range_seq(cardinality as nat).to_multiset(),
            r.spec_num_fields() == num_fields,
            r.spec_series_id() == series_id,
            r.spec_duplication_factor() == duplication_factor,
    {
        let mut rng = seeded_rng(seed);
        let time = TimeGenerator::new(start, interval);
        let mut tags: Vec<TagGenerator> = Vec::new();
        let mut i: usize = 0;
        while i < num_tags
            invariant
                i <= num_tags,
                tags@.len() == i,
                forall|k: int| 0 <= k < i ==> (#[trigger] tags@[k]).wf() && tags@[k].base() == "value-"@
                    && tags@[k].values().1 == 0 && tags@[k].values().0.to_multiset() == range_seq(
                    cardinality as nat,
                ).to_multiset(),
            decreases num_tags - i,
        {
            tags.push(TagGenerator::new(&mut rng, cardinality).with_base("value-"));
            i += 1;
        }
        let mut fields: Vec<FieldGenerator> = Vec::new();
        let mut i: usize = 0;
        while i < num_fields
            invariant
                i <= num_fields,
                fields@.len() == i,
            decreases num_fields - i,
        {
            fields.push(FieldGenerator::new(&rng));
            i += 1;
        }
        RowGenerator {
            time,
            tags,
            series_id,
            fields,
            duplication_factor,
            rng: seeded_rng(seed),
        }
    }

    /// The next row at the current time: one value from each tag generator, named
    /// `tag_<i>`, and one from each field generator, named `field_<i>`; with series ids on,
    /// the SHA-256 digest of its tags. `None` where a tag generator has run out.
    pub fn generate(&mut self) -> (r: Option<GeneratedRow>)
        requires
            old(self).wf(),
        ensures
            final(self).wf(),
            final(self).spec_time() == old(self).spec_time(),
            final(self).spec_tags().len() == old(self).spec_tags().len(),
            final(self).spec_num_fields() == old(self).spec_num_fields(),
            final(self).spec_series_id() == old(self).spec_series_id(),
            final(self).spec_duplication_factor() == old(self).spec_duplication_factor(),
            r is Some ==> forall|i: int|
                0 <= i < old(self).spec_tags().len() ==> (#[trigger] final(self).spec_tags()[i]).values()
                    == (old(self).spec_tags()[i].values().0, old(self).spec_tags()[i].values().1 + 1)
                    && final(self).spec_tags()[i].base() == old(self).spec_tags()[i].base(),
            r is None <==> exists|i: int|
                0 <= i < old(self).spec_tags().len() && (#[trigger] old(self).spec_tags()[i]).values().1
                    >= old(self).spec_tags()[i].values().0.len(),
            r matches Some(row) ==> {
                &&& row.time == old(self).spec_time().current
                &&& row.tags@.len() == old(self).spec_tags().len()
                &&& forall|i: int|
                    0 <= i < row.tags@.len() ==> (#[trigger] row.tags@[i]).0@ == "tag_"@ + decimal_chars(
                        i as nat,
                    ) && row.tags@[i].1@ == old(self).spec_tags()[i].base() + decimal_chars(
                        old(self).spec_tags()[i].values().0[old(self).spec_tags()[i].values().1 as int] as nat,
                    )
                &&& row.fields@.len() == old(self).spec_num_fields()
                &&& forall|i: int| 0 <= i < row.fields@.len() ==> (#[trigger] row.fields@[i]).0@
                    == "field_"@ + decimal_chars(i as nat)
                &&& row.series_id is Some == old(self).spec_series_id()
                &&& row.series_id matches Some(d) ==> d@ == sha256_of(series_text(tags_view(row.tags@)))
            },
    {
        let time = self.time.current();
        let mut tags: Vec<Tag> = Vec::new();
        let mut i: usize = 0;
        while i < self.tags.len()
            invariant
                i <= self.tags@.len(),
                self.tags@.len() == old(self).tags@.len(),
                self.time == old(self).time,
                self.fields@.len() == old(self).fields@.len(),
                self.series_id == old(self).series_id,
                forall|k: int| 0 <= k < self.tags@.len() ==> (#[trigger] self.tags@[k]).wf(),
                forall|k: int| i <= k < self.tags@.len() ==> #[trigger] self.tags@[k] == old(self).tags@[k],
                forall|k: int| 0 <= k < i ==> (#[trigger] old(self).tags@[k]).values().1 < old(self).tags@[k].values().0.len(),
                self.duplication_factor == old(self).duplication_factor,
                forall|k: int| 0 <= k < i ==> (#[trigger] self.tags@[k]).values() == (old(self).tags@[k].values().0, old(self).tags@[k].values().1 + 1)
                    && self.tags@[k].base() == old(self).tags@[k].base(),
                tags@.len() == i,
                forall|k: int|
                    0 <= k < i ==> (#[trigger] tags@[k]).0@ == "tag_"@ + decimal_chars(k as nat)
                        && tags@[k].1@ == old(self).tags@[k].base() + decimal_chars(
                        old(self).tags@[k].values().0[old(self).tags@[k].values().1 as int] as nat,
                    ),
            decreases self.tags@.len() - i,
        {
            let v = match self.tags[i].generate() {
                Some(v) => v,
                None => {
                    assert(old(self).spec_tags()[i as int] == old(self).tags@[i as int]);
                    assert(old(self).spec_tags()[i as int].values().1 >= old(self).spec_tags()[i as int].values().0.len());
                    return None;
                },
            };
            let name = base_and_number("tag_", i as u64);
            tags.push(Tag(name, v));
            i += 1;
        }
        let ghost tags_after = self.tags@;
        let mut fields: Vec<FieldEntry> = Vec::new();
        let mut i: usize = 0;
        while i < self.fields.len()
            invariant
                self.tags@ == tags_after,
                self.time == old(self).time,
                self.series_id == old(self).series_id,
                self.duplication_factor == old(self).duplication_factor,
                self.fields@.len() == old(self).fields@.len(),
                forall|k: int| 0 <= k < self.tags@.len() ==> (#[trigger] self.tags@[k]).wf(),
                i <= self.fields@.len(),
                fields@.len() == i,
                forall|k: int| 0 <= k < i ==> (#[trigger] fields@[k]).0@ == "field_"@ + decimal_chars(k as nat),
            decreases self.fields@.len() - i,
        {
            let v = self.fields[i].generate().unwrap();
            let name = base_and_number("field_", i as u64);
            fields.push(FieldEntry(name, v));
            i += 1;
        }
        let series_id = if self.series_id {
            let text = series_bytes(&tags);
            Some(sha256(text.as_slice()))
        } else {
            None
        };
        Some(GeneratedRow { time, tags, fields, series_id })
    }

    /// The time of the rows generated next.
    pub fn current_time(&self) -> (r: i64)
        ensures
            r == self.spec_time().current,
    {
        self.time.current()
    }

    /// Moves to the next time and starts every tag generator over.
    pub fn reset(&mut self)
        requires
            old(self).wf(),
            i64::MIN <= old(self).spec_time().current + old(self).spec_time().interval <= i64::MAX,
        ensures
            final(self).wf(),
            final(self).spec_time().current == old(self).spec_time().current + old(self).spec_time().interval,
            final(self).spec_time().interval == old(self).spec_time().interval,
            final(self).spec_tags().len() == old(self).spec_tags().len(),
            forall|i: int| 0 <= i < final(self).spec_tags().len() ==> (#[trigger] final(self).spec_tags()[i]).values()
                == (old(self).spec_tags()[i].values().0, 0nat) && final(self).spec_tags()[i].base()
                == old(self).spec_tags()[i].base(),
    {
        self.time.generate();
        let mut i: usize = 0;
        while i < self.tags.len()
            invariant
                i <= self.tags@.len(),
                self.tags@.len() == old(self).tags@.len(),
                self.time.current == old(self).time.current + old(self).time.interval,
                self.time.interval == old(self).time.interval,
                forall|k: int| 0 <= k < self.tags@.len() ==> (#[trigger] self.tags@[k]).wf(),
                forall|k: int| i <= k < self.tags@.len() ==> #[trigger] self.tags@[k] == old(self).tags@[k],
                forall|k: int| 0 <= k < i ==> (#[trigger] self.tags@[k]).values() == (old(self).tags@[k].values().0, 0nat)
                    && self.tags@[k].base() == old(self).tags@[k].base(),
            decreases self.tags@.len() - i,
        {
            self.tags[i].reset();
            i += 1;
        }
    }
}

} // verus!
