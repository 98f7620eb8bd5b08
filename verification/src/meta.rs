//! The metadata kept for one saved link or note.

use vstd::prelude::*;
use crate::strset::StrSet;
use crate::text::{append_text, decimal_text, digit_char, push_char, views_of};

verus! {

/// A point in time: whole seconds since the Unix epoch and the nanoseconds
/// past that second.
#[derive(Debug, Clone, Copy, PartialEq, Eq, Structural)]
pub struct Timestamp {
    pub secs: i64,
    pub nanos: u32,
}

/// `a` is not later than `b`.
pub open spec fn ts_le(a: Timestamp, b: Timestamp) -> bool {
    a.secs < b.secs || (a.secs == b.secs && a.nanos <= b.nanos)
}

impl Timestamp {
    /// Whether `self` is at or after `other`.
    pub fn at_or_after(&self, other: &Timestamp) -> (r: bool)
        ensures
            r == ts_le(*other, *self),
    {
        self.secs > other.secs || (self.secs == other.secs && self.nanos >= other.nanos)
    }
}

#[verifier::external_type_specification]
#[verifier::external_body]
pub struct ExSystemTime(std::time::SystemTime);

#[verifier::external_type_specification]
#[verifier::external_body]
pub struct ExSystemTimeError(std::time::SystemTimeError);

/// `std::time::SystemTime::now()`. Nothing is claimed of the time read.
#[verifier::external_body]
fn system_now() -> (r: std::time::SystemTime)
{
    std::time::SystemTime::now()
}

/// `t.duration_since(std::time::UNIX_EPOCH)`: the distance after the epoch,
/// or an error holding the distance before it. Nothing is claimed of which.
#[verifier::external_body]
fn since_epoch(t: std::time::SystemTime) -> (r: Result<std::time::Duration, std::time::SystemTimeError>)
{
    t.duration_since(std::time::UNIX_EPOCH)
}

/// `SystemTimeError::duration`: how far before the epoch the time was.
#[verifier::external_body]
fn error_duration(e: &std::time::SystemTimeError) -> (r: std::time::Duration)
{
    e.duration()
}

/// `Duration::as_secs`: the whole seconds of a distance.
#[verifier::external_body]
fn duration_secs(d: &std::time::Duration) -> (r: u64)
{
    d.as_secs()
}

/// `Duration::subsec_nanos`. Trusted: under one second, as its documentation
/// says.
#[verifier::external_body]
fn duration_nanos(d: &std::time::Duration) -> (r: u32)
    ensures
        r < 1_000_000_000,
{
    d.subsec_nanos()
}

/// The system clock's distance from the Unix epoch: `Ok` of (seconds,
/// nanoseconds) at or after the epoch, `Err` of the same distance before it.
fn clock_since_epoch() -> (r: Result<(u64, u32), (u64, u32)>)
    ensures
        match r {
            Ok(t) => t.1 < 1_000_000_000,
            Err(t) => t.1 < 1_000_000_000,
        },
{
    match since_epoch(system_now()) {
        Ok(d) => Ok((duration_secs(&d), duration_nanos(&d))),
        Err(e) => {
            let d = error_duration(&e);
            Err((duration_secs(&d), duration_nanos(&d)))
        },
    }
}

/// The point in time `d` seconds and `n` nanoseconds after (or, when
/// `before`, before) the epoch; seconds beyond the range of `i64` are held at
/// its bound.
pub open spec fn time_from_epoch(before: bool, d: u64, n: u32) -> Timestamp {
    if !before {
        Timestamp { secs: if d <= i64::MAX { d as i64 } else { i64::MAX }, nanos: n }
    } else if n == 0 {
        Timestamp { secs: if d <= i64::MAX { -(d as int) as i64 } else { i64::MIN }, nanos: 0 }
    } else {
        Timestamp {
            secs: if d < i64::MAX { (-(d as int) - 1) as i64 } else { i64::MIN },
            nanos: (1_000_000_000 - n) as u32,
        }
    }
}

/// A time the clock can give: some distance from the epoch, after or before
/// it, with fewer than a second of nanoseconds.
pub open spec fn is_clock_reading(t: Timestamp) -> bool {
    &&& t.nanos < 1_000_000_000
    &&& exists|before: bool, d: u64, n: u32| n < 1_000_000_000 && t == #[trigger] time_from_epoch(before, d, n)
}

/// The current time, read from the system clock; a clock set before 1970
/// gives a time before the epoch.
pub(crate) fn now() -> (t: Timestamp)
    ensures
        is_clock_reading(t),
{
    match clock_since_epoch() {
        Ok((d, n)) => {
            let secs: i64 = if d <= 9_223_372_036_854_775_807u64 { d as i64 } else { i64::MAX };
            let t = Timestamp { secs, nanos: n };
            assert(t == time_from_epoch(false, d, n));
            t
        },
        Err((d, n)) => {
            let t = if n == 0 {
                let secs: i64 = if d <= 9_223_372_036_854_775_807u64 { 0 - (d as i64) } else { i64::MIN };
                Timestamp { secs, nanos: 0 }
            } else {
                let secs: i64 = if d < 9_223_372_036_854_775_807u64 { 0 - (d as i64) - 1 } else { i64::MIN };
                Timestamp { secs, nanos: 1_000_000_000 - n }
            };
            assert(t == time_from_epoch(true, d, n));
            t
        },
    }
}

/// Where an item stands with the full-text index.
#[derive(Debug, Clone, Copy, PartialEq, Eq, Structural)]
pub enum IndexStatus {
    Indexing,
    Indexed,
    Old,
}

impl IndexStatus {
    pub fn is_indexing(&self) -> (r: bool)
        ensures
            r == (*self == IndexStatus::Indexing),
    {
        *self == IndexStatus::Indexing
    }

    pub fn is_indexed(&self) -> (r: bool)
        ensures
            r == (*self == IndexStatus::Indexed),
    {
        *self == IndexStatus::Indexed
    }

    pub fn is_old(&self) -> (r: bool)
        ensures
            r == (*self == IndexStatus::Old),
    {
        *self == IndexStatus::Old
    }
}

/// The text of an optional string.
pub open spec fn opt_text(o: Option<String>) -> Option<Seq<char>> {
    match o {
        Some(s) => Some(s@),
        None => None,
    }
}

/// The abstract value of a `Meta`.
pub struct MetaView {
    pub id: Seq<char>,
    pub name: Option<Seq<char>>,
    pub url: Option<Seq<char>>,
    pub comment: Option<Seq<char>>,
    pub found: Timestamp,
    pub last_read: Option<Timestamp>,
    pub last_updated: Timestamp,
    pub index_status: Option<IndexStatus>,
    pub tags: Set<Seq<char>>,
}

/// Metadata of one item: its id, optional name, link and comment, when it was
/// found, last read and last updated, its index status and its tags.
#[derive(Debug, PartialEq, Eq)]
pub struct Meta {
    pub id: String,
    pub name: Option<String>,
    /// The link, as `url::Url` serializes it.
    pub url: Option<String>,
    pub comment: Option<String>,
    pub found: Timestamp,
    pub last_read: Option<Timestamp>,
    pub last_updated: Timestamp,
    pub index_status: Option<IndexStatus>,
    pub tags: StrSet,
}

impl View for Meta {
    type V = MetaView;

    open spec fn view(&self) -> MetaView {
        MetaView {
            id: self.id@,
            name: opt_text(self.name),
            url: opt_text(self.url),
            comment: opt_text(self.comment),
            found: self.found,
            last_read: self.last_read,
            last_updated: self.last_updated,
            index_status: self.index_status,
            tags: self.tags@,
        }
    }
}

/// A copy of an optional string.
pub fn copy_opt(o: &Option<String>) -> (r: Option<String>)
    ensures
        opt_text(r) == opt_text(*o),
{
    match o {
        Some(s) => Some(s.clone()),
        None => None,
    }
}

/// The first option when it holds a value, else the second.
pub open spec fn prefer<T>(a: Option<T>, b: Option<T>) -> Option<T> {
    if a.is_some() {
        a
    } else {
        b
    }
}

/// `a` merged with `b` at time `now`: when `b` was updated later, its name,
/// comment and last-read time win where it has them and its found time
/// replaces `a`'s; otherwise `a` keeps its own and only fills gaps from `b`.
/// The tags are the union and the update time is `now`.
pub open spec fn union_view(a: MetaView, b: MetaView, now: Timestamp) -> MetaView {
    let newest = ts_le(b.last_updated, a.last_updated);
    MetaView {
        id: a.id,
        name: if newest { prefer(a.name, b.name) } else { prefer(b.name, a.name) },
        url: a.url,
        comment: if newest { prefer(a.comment, b.comment) } else { prefer(b.comment, a.comment) },
        found: if newest { a.found } else { b.found },
        last_read: if newest { prefer(a.last_read, b.last_read) } else { prefer(b.last_read, a.last_read) },
        last_updated: now,
        index_status: a.index_status,
        tags: a.tags.union(b.tags),
    }
}

impl Meta {
    pub fn id(&self) -> (r: &str)
        ensures
            r@ == self.id@,
    {
        self.id.as_str()
    }

    pub fn name(&self) -> (r: Option<&str>)
        ensures
            match r {
                Some(n) => self.name.is_some() && n@ == self.name.unwrap()@,
                None => self.name.is_none(),
            },
    {
        match &self.name {
            Some(n) => Some(n.as_str()),
            None => None,
        }
    }

    pub fn url(&self) -> (r: Option<&str>)
        ensures
            match r {
                Some(u) => self.url.is_some() && u@ == self.url.unwrap()@,
                None => self.url.is_none(),
            },
    {
        match &self.url {
            Some(u) => Some(u.as_str()),
            None => None,
        }
    }

    pub fn comment(&self) -> (r: Option<&str>)
        ensures
            match r {
                Some(c) => self.comment.is_some() && c@ == self.comment.unwrap()@,
                None => self.comment.is_none(),
            },
    {
        match &self.comment {
            Some(c) => Some(c.as_str()),
            None => None,
        }
    }

    pub fn found(&self) -> (r: &Timestamp)
        ensures
            *r == self.found,
    {
        &self.found
    }

    pub fn last_read(&self) -> (r: Option<&Timestamp>)
        ensures
            match r {
                Some(t) => self.last_read == Some(*t),
                None => self.last_read.is_none(),
            },
    {
        match &self.last_read {
            Some(t) => Some(t),
            None => None,
        }
    }

    pub fn tags(&self) -> (r: &StrSet)
        ensures
            r@ == self.tags@,
    {
        &self.tags
    }

    /// A builder with nothing set.
    pub fn builder() -> (b: MetaBuilder)
        ensures
            b == MetaBuilder::empty(),
    {
        MetaBuilder::new()
    }

    /// A copy with the same value.
    pub fn duplicate(&self) -> (r: Meta)
        ensures
            r@ == self@,
    {
        Meta {
            id: self.id.clone(),
            name: copy_opt(&self.name),
            url: copy_opt(&self.url),
            comment: copy_opt(&self.comment),
            found: self.found,
            last_read: self.last_read,
            last_updated: self.last_updated,
            index_status: self.index_status,
            tags: self.tags.duplicate(),
        }
    }

    /// Merges `other` into `self`, stamping the result with `now`.
    pub fn union_at(&mut self, other: &Meta, now: Timestamp)
        ensures
            final(self)@ == union_view(old(self)@, other@, now),
    {
        let newest = self.last_updated.at_or_after(&other.last_updated);
        if !newest {
            if other.name.is_some() {
                self.name = copy_opt(&other.name);
            }
            if other.comment.is_some() {
                self.comment = copy_opt(&other.comment);
            }
            if other.last_read.is_some() {
                self.last_read = other.last_read;
            }
            self.found = other.found;
        } else {
            if self.name.is_none() {
                self.name = copy_opt(&other.name);
            }
            if self.comment.is_none() {
                self.comment = copy_opt(&other.comment);
            }
            if self.last_read.is_none() {
                self.last_read = other.last_read;
            }
        }
        self.tags.union_with(&other.tags);
        self.last_updated = now;
    }

    /// Merges `other` into `self`, stamping the result with the current time.
    pub fn union(&mut self, other: &Meta)
        ensures
            final(self)@ == union_view(old(self)@, other@, final(self).last_updated),
            is_clock_reading(final(self).last_updated),
    {
        let t = now();
        self.union_at(other, t);
    }
}

/// Builds a `Meta` field by field.
pub struct MetaBuilder {
    pub id: Option<String>,
    pub name: Option<String>,
    pub url: Option<String>,
    pub comment: Option<String>,
    pub found: Option<Timestamp>,
    pub last_read: Option<Timestamp>,
    pub tags: Option<StrSet>,
}

impl MetaBuilder {
    pub open spec fn empty() -> MetaBuilder {
        MetaBuilder {
            id: None,
            name: None,
            url: None,
            comment: None,
            found: None,
            last_read: None,
            tags: None,
        }
    }

    pub fn new() -> (b: MetaBuilder)
        ensures
            b == MetaBuilder::empty(),
    {
        MetaBuilder {
            id: None,
            name: None,
            url: None,
            comment: None,
            found: None,
            last_read: None,
            tags: None,
        }
    }

    pub fn id(self, id: String) -> (b: MetaBuilder)
        ensures
            b == (MetaBuilder { id: Some(id), ..self }),
    {
        MetaBuilder { id: Some(id), ..self }
    }

    pub fn found(self, found: Timestamp) -> (b: MetaBuilder)
        ensures
            b == (MetaBuilder { found: Some(found), ..self }),
    {
        MetaBuilder { found: Some(found), ..self }
    }

    pub fn last_read(self, last_read: Timestamp) -> (b: MetaBuilder)
        ensures
            b == (MetaBuilder { last_read: Some(last_read), ..self }),
    {
        MetaBuilder { last_read: Some(last_read), ..self }
    }

    /// Sets the link; `url` is a link as `url::Url` serializes it.
    pub fn url(self, url: String) -> (b: MetaBuilder)
        ensures
            b == (MetaBuilder { url: Some(url), ..self }),
    {
        MetaBuilder { url: Some(url), ..self }
    }

    pub fn name(self, name: String) -> (b: MetaBuilder)
        ensures
            b == (MetaBuilder { name: Some(name), ..self }),
    {
        MetaBuilder { name: Some(name), ..self }
    }

    pub fn comment(self, comment: String) -> (b: MetaBuilder)
        ensures
            b == (MetaBuilder { comment: Some(comment), ..self }),
    {
        MetaBuilder { comment: Some(comment), ..self }
    }

    pub fn tags(self, tags: StrSet) -> (b: MetaBuilder)
        ensures
            b == (MetaBuilder { tags: Some(tags), ..self }),
    {
        MetaBuilder { tags: Some(tags), ..self }
    }

    /// The `Meta` with the fields that were set. A missing found time is the
    /// current time, a missing id a fresh one from `generate_id`, missing tags
    /// an empty set; the update time is the current time and there is no
    /// index status.
    pub fn build(self) -> (m: Meta)
        ensures
            match self.id {
                Some(i) => m.id@ == i@,
                None => is_fresh_id(m.id@),
            },
            opt_text(m.name) == opt_text(self.name),
            opt_text(m.url) == opt_text(self.url),
            opt_text(m.comment) == opt_text(self.comment),
            self.found matches Some(f) ==> m.found == f,
            self.found is None ==> is_clock_reading(m.found),
            is_clock_reading(m.last_updated),
            m.last_read == self.last_read,
            m.index_status.is_none(),
            match self.tags {
                Some(t) => m.tags@ == t@,
                None => m.tags@ == Set::<Seq<char>>::empty(),
            },
    {
        let found = match self.found {
            Some(f) => f,
            None => now(),
        };
        let id = match self.id {
            Some(i) => i,
            None => generate_id(),
        };
        let tags = match self.tags {
            Some(t) => t,
            None => StrSet::new(),
        };
        Meta {
            id,
            name: self.name,
            url: self.url,
            comment: self.comment,
            found,
            last_read: self.last_read,
            last_updated: now(),
            index_status: None,
            tags,
        }
    }
}

/// A lower-case ASCII letter or a digit.
pub open spec fn is_id_char(c: char) -> bool {
    ('0' <= c && c <= '9') || ('a' <= c && c <= 'z')
}

/// Ten characters, each a lower-case ASCII letter or a digit.
pub open spec fn is_generated_id(s: Seq<char>) -> bool {
    s.len() == 10 && forall|i: int| 0 <= i < 10 ==> is_id_char(#[trigger] s[i])
}

/// A generator seeded once from the operating system.
#[verifier::external_type_specification]
#[verifier::external_body]
pub struct ExStdRng(rand::rngs::StdRng);

/// `rand::SeedableRng::from_rng(rand::rngs::OsRng)` for `rand::rngs::StdRng`:
/// a generator seeded from the operating system's random source, `None` when
/// that source fails. Trusted: nothing is claimed of the generator.
#[verifier::external_body]
fn seeded_rng() -> (r: Option<rand::rngs::StdRng>)
{
    rand::SeedableRng::from_rng(rand::rngs::OsRng).ok()
}

/// An ASCII letter (either case) or digit, as a byte.
pub open spec fn is_alnum_byte(b: u8) -> bool {
    (48 <= b <= 57) || (65 <= b <= 90) || (97 <= b <= 122)
}

/// One byte drawn with `rand::Rng::sample(rng, rand::distributions::Alphanumeric)`.
/// Trusted: it is an ASCII letter or digit, the 62 characters that
/// `Alphanumeric` picks from; which one is left open.
#[verifier::external_body]
fn sample_alphanumeric(rng: &mut rand::rngs::StdRng) -> (b: u8)
    ensures
        is_alnum_byte(b),
{
    rand::Rng::sample(rng, rand::distributions::Alphanumeric)
}

/// The byte `b` with an upper-case ASCII letter made lower-case.
pub open spec fn lower_byte(b: u8) -> u8 {
    if 65 <= b <= 90 { (b + 32) as u8 } else { b }
}

/// The id a drawn sample gives: each byte lower-cased, as a character.
pub open spec fn sample_id_text(s: Seq<u8>) -> Seq<char> {
    s.map_values(|b: u8| lower_byte(b) as char)
}

/// The id for the drawn bytes `sample`: each lower-cased, in order.
pub fn id_from_sample(sample: &Vec<u8>) -> (id: String)
    ensures
        id@ == sample_id_text(sample@),
{
    let mut id = String::new();
    let mut i: usize = 0;
    while i < sample.len()
        invariant
            i <= sample@.len(),
            id@ == sample_id_text(sample@.subrange(0, i as int)),
        decreases sample@.len() - i,
    {
        let b = sample[i];
        let l: u8 = if 65 <= b && b <= 90 { b + 32 } else { b };
        push_char(&mut id, l as char);
        proof {
            assert(sample@.subrange(0, i + 1) =~= sample@.subrange(0, i as int).push(b));
            assert(sample_id_text(sample@.subrange(0, i + 1)) =~= sample_id_text(sample@.subrange(0, i as int)).push(l as char));
        }
        i = i + 1;
    }
    proof {
        assert(sample@.subrange(0, sample@.len() as int) =~= sample@);
    }
    id
}

/// The character of the base-36 digit `v`: a digit, then a lower-case letter.
pub open spec fn base36_char(v: nat) -> char {
    if v < 10 { (48 + v) as char } else { (87 + v) as char }
}

/// The lowest `k` base-36 digits of `seed`, least significant first.
pub open spec fn base36_digits(seed: nat, k: nat) -> Seq<char>
    decreases k,
{
    if k == 0 { Seq::empty() } else { seq![base36_char(seed % 36)] + base36_digits(seed / 36, (k - 1) as nat) }
}

/// The number a clock reading gives for an id: its seconds (none before the
/// epoch), bits exclusive-or its nanoseconds.
pub open spec fn clock_seed(t: Timestamp) -> u64 {
    (if t.secs >= 0 { t.secs as u64 } else { 0u64 }) ^ (t.nanos as u64)
}

/// The id for a clock reading: the lowest ten base-36 digits of its seed.
pub fn id_from_clock(t: Timestamp) -> (id: String)
    ensures
        id@ == base36_digits(clock_seed(t) as nat, 10),
{
    let s: u64 = if t.secs >= 0 { t.secs as u64 } else { 0 };
    let mut seed: u64 = s ^ (t.nanos as u64);
    let mut id = String::new();
    let mut i: usize = 0;
    while i < 10
        invariant
            i <= 10,
            id@ + base36_digits(seed as nat, (10 - i) as nat) == base36_digits(clock_seed(t) as nat, 10),
        decreases 10 - i,
    {
        let d = seed % 36;
        let b: u8 = if d < 10 { 48 + (d as u8) } else { 87 + (d as u8) };
        let c = b as char;
        assert(c == base36_char(seed as nat % 36));
        proof {
            let rest = base36_digits((seed / 36) as nat, (10 - i - 1) as nat);
            assert(base36_digits(seed as nat, (10 - i) as nat) == seq![c] + rest);
            assert(id@ + (seq![c] + rest) =~= id@.push(c) + rest);
        }
        push_char(&mut id, c);
        seed = seed / 36;
        i = i + 1;
    }
    assert(id@ + base36_digits(seed as nat, 0) =~= id@);
    id
}

proof fn lemma_base36_generated(seed: nat, k: nat)
    ensures
        base36_digits(seed, k).len() == k,
        forall|j: int| 0 <= j < k ==> is_id_char(#[trigger] base36_digits(seed, k)[j]),
    decreases k,
{
    if k > 0 {
        lemma_base36_generated(seed / 36, (k - 1) as nat);
        let v = seed % 36;
        assert(is_id_char(base36_char(v)));
        assert forall|j: int| 0 <= j < k implies is_id_char(#[trigger] base36_digits(seed, k)[j]) by {
            if j > 0 {
                assert(base36_digits(seed, k)[j] == base36_digits(seed / 36, (k - 1) as nat)[j - 1]);
            }
        }
    }
}

/// An id `generate_id` can give: ten lower-case ASCII letters or digits,
/// either the lower-cased bytes of a sample of ten ASCII letters or digits,
/// or the lowest ten base-36 digits of the seed of a clock reading.
pub open spec fn is_fresh_id(s: Seq<char>) -> bool {
    &&& is_generated_id(s)
    &&& (exists|b: Seq<u8>| #![trigger sample_id_text(b)] b.len() == 10
            && (forall|i: int| 0 <= i < 10 ==> is_alnum_byte(#[trigger] b[i])) && s == sample_id_text(b))
        || (exists|t: Timestamp| #![trigger clock_seed(t)] is_clock_reading(t) && s == base36_digits(clock_seed(t) as nat, 10))
}

/// A fresh random id: ten ASCII letters or digits drawn with `rand`'s
/// `Alphanumeric` from a generator seeded by the operating system, each
/// lower-cased. When the operating system cannot seed the generator, the id
/// is the base-36 digits of the clock's reading instead.
pub fn generate_id() -> (id: String)
    ensures
        is_fresh_id(id@),
{
    match seeded_rng() {
        Some(mut rng) => {
            let mut sample: Vec<u8> = Vec::new();
            let mut i: usize = 0;
            while i < 10
                invariant
                    i <= 10,
                    sample@.len() == i,
                    forall|j: int| 0 <= j < i ==> is_alnum_byte(#[trigger] sample@[j]),
                decreases 10 - i,
            {
                let b = sample_alphanumeric(&mut rng);
                sample.push(b);
                i = i + 1;
            }
            let id = id_from_sample(&sample);
            proof {
                assert forall|j: int| 0 <= j < 10 implies is_id_char(#[trigger] id@[j]) by {
                    assert(id@[j] == lower_byte(sample@[j]) as char);
                }
            }
            id
        },
        None => {
            let t = now();
            let id = id_from_clock(t);
            proof {
                lemma_base36_generated(clock_seed(t) as nat, 10);
            }
            id
        },
    }
}

/// The date of `found` as `chrono`'s `%a %d, %Y` writes it in UTC
/// (for example `Tue 05, 2021`); empty for a time `chrono` cannot represent.
pub uninterp spec fn found_date_text(secs: i64, nanos: u32) -> Seq<char>;

/// The short English name of the weekday `w` days after a Sunday (`w` in 0..7).
pub open spec fn weekday_name(w: int) -> Seq<char> {
    if w == 0 { "Sun"@ } else if w == 1 { "Mon"@ } else if w == 2 { "Tue"@ }
    else if w == 3 { "Wed"@ } else if w == 4 { "Thu"@ } else if w == 5 { "Fri"@ } else { "Sat"@ }
}

/// Year, month and day of the day `days` days after 1970-01-01 in the
/// proleptic Gregorian calendar, for `days` not below zero (eras of 400 years
/// counted from 0000-03-01, years within an era starting in March).
pub open spec fn civil_date(days: int) -> (int, int, int) {
    let z = days + 719468;
    let era = z / 146097;
    let doe = z - era * 146097;
    let yoe = (doe - doe / 1460 + doe / 36524 - doe / 146096) / 365;
    let doy = doe - (365 * yoe + yoe / 4 - yoe / 100);
    let mp = (5 * doy + 2) / 153;
    let d = doy - (153 * mp + 2) / 5 + 1;
    let m = if mp < 10 { mp + 3 } else { mp - 9 };
    (yoe + era * 400 + if m <= 2 { 1int } else { 0int }, m, d)
}

/// Seconds from 1970-01-01 to 10000-01-01, both at midnight UTC.
pub open spec fn years_to_ten_thousand() -> int {
    253402300800
}

/// The date of a time `secs` seconds after 1970-01-01 UTC and before the year
/// 10000: short weekday name, a space, the day of the month in two digits, a
/// comma and a space, and the four digits of the year.
pub open spec fn date_text(secs: int) -> Seq<char> {
    let days = secs / 86400;
    let (y, m, d) = civil_date(days);
    weekday_name((days + 4) % 7) + " "@ + seq![digit_char((d / 10) as nat), digit_char((d % 10) as nat)]
        + ", "@ + decimal_text(y as nat)
}

/// Formats a point in time with `chrono::DateTime::<Utc>::format("%a %d, %Y")`.
/// Trusted: that the text is `found_date_text` of the time, a function of the
/// time alone (UTC, no locale); and that for a time from 1970 up to the year
/// 10000 with fewer than a second of nanoseconds it is `date_text` of its
/// seconds. What `chrono` writes for other times (years before 1970, signed
/// years past 9999, leap-second nanoseconds, or nothing out of its range) is
/// left unsaid beyond the name.
#[verifier::external_body]
fn format_found_date(t: Timestamp) -> (r: String)
    ensures
        r@ == found_date_text(t.secs, t.nanos),
        0 <= t.secs < years_to_ten_thousand() && t.nanos < 1_000_000_000 ==> r@ == date_text(t.secs as int),
{
    match chrono::DateTime::from_timestamp(t.secs, t.nanos) {
        Some(d) => d.format("%a %d, %Y").to_string(),
        None => String::new(),
    }
}

/// `{:?}` of the `chrono::DateTime<Utc>` for a point in time (for example
/// `2021-01-05T00:00:00Z`); empty for a time `chrono` cannot represent.
pub uninterp spec fn time_debug_of(secs: i64, nanos: u32) -> Seq<char>;

/// Formats a point in time with the `Debug` of `chrono::DateTime::<Utc>`.
/// Trusted: the text is `time_debug_of` the time, a function of the time alone.
#[verifier::external_body]
pub(crate) fn time_debug(t: Timestamp) -> (r: String)
    ensures
        r@ == time_debug_of(t.secs, t.nanos),
{
    match chrono::DateTime::from_timestamp(t.secs, t.nanos) {
        Some(d) => format!("{:?}", d),
        None => String::new(),
    }
}

/// One line per tag, each led by a newline and a tab.
pub open spec fn tag_lines(ts: Seq<Seq<char>>) -> Seq<char>
    decreases ts.len(),
{
    if ts.len() == 0 {
        Seq::empty()
    } else {
        tag_lines(ts.drop_last()) + "\n\t"@ + ts.last()
    }
}

/// How a meta reads: `[id]`, then ` name:` (or `n/a:`), the link, ` @ ` and
/// the date it was found, a line per tag in order, and a line with the comment.
pub open spec fn meta_text(m: Meta) -> Seq<char> {
    "["@ + m.id@ + "]"@
        + (match m.name { Some(n) => " "@ + n@ + ":"@, None => "n/a:"@ })
        + (match m.url { Some(u) => " "@ + u@, None => Seq::empty() })
        + " @ "@ + found_date_text(m.found.secs, m.found.nanos)
        + tag_lines(m.tags.elems())
        + (match m.comment { Some(c) => "\n\t"@ + c@, None => Seq::empty() })
}

impl Meta {
    /// The meta as one line and its tag and comment lines.
    pub fn to_text(&self) -> (r: String)
        ensures
            r@ == meta_text(*self),
            0 <= self.found.secs < years_to_ten_thousand() && self.found.nanos < 1_000_000_000 ==>
                found_date_text(self.found.secs, self.found.nanos) == date_text(self.found.secs as int),
    {
        let mut r = String::new();
        append_text(&mut r, "[");
        append_text(&mut r, self.id.as_str());
        append_text(&mut r, "]");
        let ghost head = r@;
        match &self.name {
            Some(n) => {
                append_text(&mut r, " ");
                append_text(&mut r, n.as_str());
                append_text(&mut r, ":");
            },
            None => append_text(&mut r, "n/a:"),
        }
        let ghost with_name = r@;
        match &self.url {
            Some(u) => {
                append_text(&mut r, " ");
                append_text(&mut r, u.as_str());
            },
            None => {},
        }
        let ghost with_url = r@;
        append_text(&mut r, " @ ");
        let date = format_found_date(self.found);
        append_text(&mut r, date.as_str());
        let ghost with_date = r@;
        let tags = self.tags.to_vec();
        let n = tags.len();
        let mut i: usize = 0;
        while i < n
            invariant
                n == tags@.len(),
                i <= n,
                views_of(tags@) == self.tags.elems(),
                r@ == with_date + tag_lines(views_of(tags@).subrange(0, i as int)),
            decreases n - i,
        {
            append_text(&mut r, "\n\t");
            append_text(&mut r, tags[i].as_str());
            proof {
                let pre = views_of(tags@).subrange(0, i as int);
                let next = views_of(tags@).subrange(0, i + 1);
                assert(next.drop_last() =~= pre);
                assert(next.last() == tags@[i as int]@);
                assert(r@ =~= with_date + tag_lines(next));
            }
            i = i + 1;
        }
        proof {
            assert(views_of(tags@).subrange(0, n as int) =~= views_of(tags@));
        }
        let ghost with_tags = r@;
        match &self.comment {
            Some(c) => {
                append_text(&mut r, "\n\t");
                append_text(&mut r, c.as_str());
            },
            None => {},
        }
        proof {
            assert(Seq::<char>::empty() + "["@ =~= "["@);
            match &self.name {
                Some(nm) => assert(with_name =~= head + (" "@ + nm@ + ":"@)),
                None => assert(with_name =~= head + "n/a:"@),
            }
            match &self.url {
                Some(u) => assert(with_url =~= with_name + (" "@ + u@)),
                None => assert(with_url =~= with_name + Seq::<char>::empty()),
            }
            match &self.comment {
                Some(c) => assert(r@ =~= with_tags + ("\n\t"@ + c@)),
                None => assert(r@ =~= with_tags + Seq::<char>::empty()),
            }
        }
        r
    }
}

} // verus!
