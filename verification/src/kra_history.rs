use vstd::prelude::*;
use vstd::string::StringExecFns;
use crate::text::{all_digits, dec_digits, digits_val, parse_u32, spec_split, spec_trim, split_str,
    trim, u32_to_string};
use crate::timestamp::{chrono_datetime_of, chrono_text_of, format_datetime, parse_datetime,
    Date, Timestamp};
use crate::date_util::{day_range_iter, spec_day_range};

verus! {

/// Why a history could not be ingested: a bad configuration, an unreadable
/// source, or one of the line-level parse failures. Parse failures carry
/// the offending (trimmed) line.
#[derive(Debug)]
pub enum KraHistoryError {
    InvalidConfiguration,
    SourceUnavailable(String),
    MalformedLine(String),
    InvalidTimestamp(String),
    MissingResourceId(String),
    MissingDuration(String),
    InvalidDuration(String),
}

/// The mathematical value of a `KraHistoryError`.
pub enum ErrView {
    InvalidConfiguration,
    SourceUnavailable(Seq<char>),
    MalformedLine(Seq<char>),
    InvalidTimestamp(Seq<char>),
    MissingResourceId(Seq<char>),
    MissingDuration(Seq<char>),
    InvalidDuration(Seq<char>),
}

impl View for KraHistoryError {
    type V = ErrView;

    open spec fn view(&self) -> ErrView {
        match self {
            KraHistoryError::InvalidConfiguration => ErrView::InvalidConfiguration,
            KraHistoryError::SourceUnavailable(s) => ErrView::SourceUnavailable(s@),
            KraHistoryError::MalformedLine(s) => ErrView::MalformedLine(s@),
            KraHistoryError::InvalidTimestamp(s) => ErrView::InvalidTimestamp(s@),
            KraHistoryError::MissingResourceId(s) => ErrView::MissingResourceId(s@),
            KraHistoryError::MissingDuration(s) => ErrView::MissingDuration(s@),
            KraHistoryError::InvalidDuration(s) => ErrView::InvalidDuration(s@),
        }
    }
}

/// One observed work session: when it happened, the resource's name (where
/// known), its stable identifier, and how long it lasted in seconds.
#[derive(Debug)]
pub struct KraHistoryItem {
    pub time: Timestamp,
    pub file_path: Option<String>,
    pub file_id: String,
    pub duration: u32,
}

/// The mathematical value of a `KraHistoryItem`.
pub struct ItemView {
    pub time: Timestamp,
    pub file_path: Option<Seq<char>>,
    pub file_id: Seq<char>,
    pub duration: u32,
}

impl View for KraHistoryItem {
    type V = ItemView;

    open spec fn view(&self) -> ItemView {
        ItemView {
            time: self.time,
            file_path: match self.file_path {
                Some(p) => Some(p@),
                None => None,
            },
            file_id: self.file_id@,
            duration: self.duration,
        }
    }
}

impl DeepView for KraHistoryItem {
    type V = ItemView;

    open spec fn deep_view(&self) -> ItemView {
        self.view()
    }
}

impl Clone for KraHistoryItem {
    fn clone(&self) -> (r: Self)
        ensures
            r@ == self@,
    {
        KraHistoryItem {
            time: self.time,
            file_path: match &self.file_path {
                Some(p) => Some(p.clone()),
                None => None,
            },
            file_id: self.file_id.clone(),
            duration: self.duration,
        }
    }
}

/// What parsing one raw log line yields: a record, or the error naming the
/// field that failed. The line is trimmed, split on the two-character
/// delimiter into exactly four fields (else `MalformedLine`); the first
/// must be a chrono-readable timestamp, the third a non-blank identifier,
/// the fourth a decimal duration that fits a `u32`.
pub open spec fn spec_parse_line(raw: Seq<char>) -> Result<ItemView, ErrView> {
    let line = spec_trim(raw);
    let fields = spec_split(line, seq!['#', '#']);
    if fields.len() != 4 {
        Err(ErrView::MalformedLine(line))
    } else {
        match chrono_datetime_of(fields[0]) {
            None => Err(ErrView::InvalidTimestamp(line)),
            Some(dt) => {
                if spec_trim(fields[2]).len() == 0 {
                    Err(ErrView::MissingResourceId(line))
                } else if fields[3].len() == 0 {
                    Err(ErrView::MissingDuration(line))
                } else if !(all_digits(fields[3]) && digits_val(fields[3]) <= u32::MAX) {
                    Err(ErrView::InvalidDuration(line))
                } else {
                    Ok(
                        ItemView {
                            time: Timestamp { day: dt.0 as i64, secs: dt.1 as u32 },
                            file_path: if fields[1].len() == 0 {
                                None
                            } else {
                                Some(fields[1])
                            },
                            file_id: fields[2],
                            duration: digits_val(fields[3]) as u32,
                        },
                    )
                }
            },
        }
    }
}

impl KraHistoryItem {
    /// Parses one raw log line into a validated record.
    pub fn try_from(value: &str) -> (r: Result<KraHistoryItem, KraHistoryError>)
        ensures
            r matches Ok(item) ==> spec_parse_line(value@) == Ok::<ItemView, ErrView>(item@)
                && item.time.wf() && i32::MIN <= item.time.day <= i32::MAX,
            r matches Err(e) ==> spec_parse_line(value@) == Err::<ItemView, ErrView>(e@),
    {
        let line: &str = trim(value);
        proof {
            reveal_strlit("##");
            assert("##"@ =~= seq!['#', '#']);
        }
        let fields = split_str(line, "##");
        if fields.len() != 4 {
            return Err(KraHistoryError::MalformedLine(line.to_owned()));
        }
        let time = match parse_datetime(fields[0].as_str()) {
            Some(t) => t,
            None => {
                return Err(KraHistoryError::InvalidTimestamp(line.to_owned()));
            },
        };
        let file_path: Option<String> = if fields[1].as_str().is_empty() {
            None
        } else {
            Some(fields[1].clone())
        };
        if trim(fields[2].as_str()).is_empty() {
            return Err(KraHistoryError::MissingResourceId(line.to_owned()));
        }
        let file_id = fields[2].clone();
        if fields[3].as_str().is_empty() {
            return Err(KraHistoryError::MissingDuration(line.to_owned()));
        }
        let duration = match parse_u32(fields[3].as_str()) {
            Some(d) => d,
            None => {
                return Err(KraHistoryError::InvalidDuration(line.to_owned()));
            },
        };
        Ok(KraHistoryItem { time, file_path, file_id, duration })
    }

    /// Renders the record back into the four-field log line format; `None`
    /// only where the timestamp lies outside chrono's printable years.
    pub fn to_line(&self) -> (r: Option<String>)
        ensures
            r matches Some(s) ==> s@ == chrono_text_of(self.time.day as int, self.time.secs as int)
                + seq!['#', '#'] + (match self@.file_path {
                Some(p) => p,
                None => Seq::<char>::empty(),
            }) + seq!['#', '#'] + self@.file_id + seq!['#', '#'] + dec_digits(
                self.duration as int,
            ),
            1 <= self.time.day <= 3652059 && self.time.secs < 86400 ==> r is Some,
    {
        let ts = match format_datetime(&self.time) {
            Some(t) => t,
            None => {
                return None;
            },
        };
        proof {
            reveal_strlit("##");
            assert("##"@ =~= seq!['#', '#']);
        }
        let mut out = ts;
        out.append("##");
        match &self.file_path {
            Some(p) => out.append(p.as_str()),
            None => (),
        }
        out.append("##");
        out.append(self.file_id.as_str());
        out.append("##");
        let dur = u32_to_string(self.duration);
        out.append(dur.as_str());
        Some(out)
    }
}

/// The non-blank trimmed lines of the raw log text, in original order.
pub open spec fn spec_clean_lines(content: Seq<char>) -> Seq<Seq<char>> {
    spec_split(content, seq!['\n']).map_values(|l: Seq<char>| spec_trim(l)).filter(
        |l: Seq<char>| l.len() > 0,
    )
}

/// The reverse-pass backfill: lines arrive newest first; a mapping keeps
/// the latest known name per identifier, and a record without a name takes
/// the mapped name for its identifier where one is known. The first parse
/// failure aborts the whole ingestion.
pub open spec fn spec_ingest_rev(
    lines: Seq<Seq<char>>,
    names: Map<Seq<char>, Seq<char>>,
) -> Result<Seq<ItemView>, ErrView>
    decreases lines.len(),
{
    if lines.len() == 0 {
        Ok(Seq::empty())
    } else {
        match spec_parse_line(lines[0]) {
            Err(e) => Err(e),
            Ok(item) => {
                let names2 = match item.file_path {
                    Some(p) => names.insert(item.file_id, p),
                    None => names,
                };
                let item2 = if item.file_path is None && names2.contains_key(item.file_id) {
                    ItemView { file_path: Some(names2[item.file_id]), ..item }
                } else {
                    item
                };
                match spec_ingest_rev(lines.drop_first(), names2) {
                    Err(e) => Err(e),
                    Ok(rest) => Ok(seq![item2] + rest),
                }
            },
        }
    }
}

/// What ingesting a whole log text yields: every non-blank line parsed,
/// names backfilled by the reverse pass, records back in original order.
pub open spec fn spec_read_history(content: Seq<char>) -> Result<Seq<ItemView>, ErrView> {
    match spec_ingest_rev(spec_clean_lines(content).reverse(), Map::empty()) {
        Ok(items) => Ok(items.reverse()),
        Err(e) => Err(e),
    }
}

/// The latest-name mapping a sequence of `(identifier, name)` entries
/// denotes: later entries win.
pub open spec fn assoc_view(entries: Seq<(String, String)>) -> Map<Seq<char>, Seq<char>>
    decreases entries.len(),
{
    if entries.len() == 0 {
        Map::empty()
    } else {
        assoc_view(entries.drop_last()).insert(entries.last().0@, entries.last().1@)
    }
}

proof fn lemma_assoc_untouched(entries: Seq<(String, String)>, k: Seq<char>, i: int)
    requires
        0 <= i <= entries.len(),
        forall|j: int| i <= j < entries.len() ==> (#[trigger] entries[j]).0@ != k,
    ensures
        assoc_view(entries).contains_key(k) == assoc_view(entries.take(i)).contains_key(k),
        assoc_view(entries).contains_key(k) ==> assoc_view(entries)[k] == assoc_view(
            entries.take(i),
        )[k],
    decreases entries.len() - i,
{
    if i == entries.len() {
        assert(entries.take(i) =~= entries);
    } else {
        lemma_assoc_untouched(entries, k, i + 1);
        assert(entries.take(i + 1).drop_last() =~= entries.take(i));
        assert(entries.take(i + 1).last() == entries[i]);
    }
}

/// Finds the latest name recorded for an identifier.
fn assoc_get(entries: &Vec<(String, String)>, k: &String) -> (r: Option<String>)
    ensures
        match r {
            Some(v) => assoc_view(entries@).contains_key(k@) && assoc_view(entries@)[k@] == v@,
            None => !assoc_view(entries@).contains_key(k@),
        },
{
    let mut i: usize = entries.len();
    while i > 0
        invariant
            i <= entries@.len(),
            forall|j: int| i <= j < entries@.len() ==> (#[trigger] entries@[j]).0@ != k@,
        decreases i,
    {
        i -= 1;
        if entries[i].0 == *k {
            proof {
                lemma_assoc_untouched(entries@, k@, i + 1);
                assert(entries@.take(i as int + 1).drop_last() =~= entries@.take(i as int));
                assert(entries@.take(i as int + 1).last() == entries@[i as int]);
            }
            return Some(entries[i].1.clone());
        }
    }
    proof {
        lemma_assoc_untouched(entries@, k@, 0);
        assert(entries@.take(0) =~= Seq::<(String, String)>::empty());
    }
    None
}

/// Ingests raw log text: parses every non-blank line, backfills missing
/// resource names from the latest later occurrence of the same identifier,
/// and returns the records in original order. The first failing line (seen
/// from the end) aborts the whole ingestion with its error.
pub fn read_kra_history(content: &str) -> (r: Result<Vec<KraHistoryItem>, KraHistoryError>)
    ensures
        r matches Ok(v) ==> spec_read_history(content@) == Ok::<Seq<ItemView>, ErrView>(
            v.deep_view(),
        ) && forall|t: int|
            0 <= t < v.deep_view().len() ==> (#[trigger] v.deep_view()[t]).time.wf() && i32::MIN
                <= v.deep_view()[t].time.day <= i32::MAX,
        r matches Err(e) ==> spec_read_history(content@) == Err::<Seq<ItemView>, ErrView>(e@),
{
    proof {
        reveal_strlit("\n");
        assert("\n"@ =~= seq!['\n']);
    }
    let raw_lines = split_str(content, "\n");
    let ghost splitv = spec_split(content@, seq!['\n']);
    let mut clean: Vec<String> = Vec::new();
    let mut idx: usize = 0;
    while idx < raw_lines.len()
        invariant
            idx <= raw_lines@.len(),
            raw_lines.deep_view() == splitv,
            splitv == spec_split(content@, seq!['\n']),
            clean.deep_view() == splitv.take(idx as int).map_values(
                |l: Seq<char>| spec_trim(l),
            ).filter(|l: Seq<char>| l.len() > 0),
        decreases raw_lines@.len() - idx,
    {
        let ghost prev = clean.deep_view();
        let t = trim(raw_lines[idx].as_str());
        if !t.is_empty() {
            clean.push(t.to_owned());
        }
        proof {
            let f = |l: Seq<char>| spec_trim(l);
            let p = |l: Seq<char>| l.len() > 0;
            let m0 = splitv.take(idx as int).map_values(f);
            let m1 = splitv.take(idx as int + 1).map_values(f);
            let x = f(splitv[idx as int]);
            assert(m1 =~= m0.push(x));
            m0.lemma_filter_push(x, p);
            if p(x) {
                assert(clean.deep_view() =~= prev.push(x));
            }
        }
        idx += 1;
    }
    proof {
        assert(splitv.take(raw_lines@.len() as int) =~= splitv);
    }
    let ghost rl = spec_clean_lines(content@).reverse();
    let mut res: Vec<KraHistoryItem> = Vec::new();
    let mut names: Vec<(String, String)> = Vec::new();
    let mut i: usize = clean.len();
    proof {
        assert(rl.skip(0) =~= rl);
        assert(assoc_view(names@) == Map::<Seq<char>, Seq<char>>::empty());
        match spec_ingest_rev(rl, Map::empty()) {
            Ok(rest) => {
                assert(res.deep_view() + rest =~= rest);
            },
            Err(_) => {},
        }
    }
    while i > 0
        invariant
            i <= clean@.len(),
            clean.deep_view() == spec_clean_lines(content@),
            rl == spec_clean_lines(content@).reverse(),
            forall|t: int|
                0 <= t < res.deep_view().len() ==> (#[trigger] res.deep_view()[t]).time.wf()
                    && i32::MIN <= res.deep_view()[t].time.day <= i32::MAX,
            match spec_ingest_rev(rl.skip(clean@.len() - i), assoc_view(names@)) {
                Ok(rest) => spec_ingest_rev(rl, Map::empty()) == Ok::<Seq<ItemView>, ErrView>(
                    res.deep_view() + rest,
                ),
                Err(e) => spec_ingest_rev(rl, Map::empty()) == Err::<Seq<ItemView>, ErrView>(e),
            },
        decreases i,
    {
        let ghost k = clean@.len() - i;
        let ghost suffix = rl.skip(k);
        proof {
            assert(suffix.len() == i);
            assert(suffix[0] == rl[k]);
            assert(rl[k] == clean.deep_view()[i - 1]);
            assert(suffix.drop_first() =~= rl.skip(k + 1));
        }
        i -= 1;
        let mut ele = match KraHistoryItem::try_from(clean[i].as_str()) {
            Ok(it) => it,
            Err(e) => {
                return Err(e);
            },
        };
        let ghost parsed = ele@;
        let ghost names_before = assoc_view(names@);
        let ghost names_seq_before = names@;
        match &ele.file_path {
            Some(p) => {
                let entry = (ele.file_id.clone(), p.clone());
                names.push(entry);
                proof {
                    assert(names@.drop_last() =~= names_seq_before);
                }
            },
            None => (),
        }
        proof {
            assert(assoc_view(names@) == match parsed.file_path {
                Some(p) => names_before.insert(parsed.file_id, p),
                None => names_before,
            });
        }
        if ele.file_path.is_none() {
            match assoc_get(&names, &ele.file_id) {
                Some(v) => {
                    ele.file_path = Some(v);
                },
                None => (),
            }
        }
        let ghost item2 = if parsed.file_path is None && assoc_view(names@).contains_key(
            parsed.file_id,
        ) {
            ItemView { file_path: Some(assoc_view(names@)[parsed.file_id]), ..parsed }
        } else {
            parsed
        };
        proof {
            assert(ele@ == item2);
        }
        let ghost prev_res = res.deep_view();
        res.push(ele);
        proof {
            assert(res.deep_view() =~= prev_res.push(item2));
            match spec_ingest_rev(rl.skip(k + 1), assoc_view(names@)) {
                Ok(rest) => {
                    assert(spec_ingest_rev(suffix, names_before) == Ok::<Seq<ItemView>, ErrView>(
                        seq![item2] + rest,
                    ));
                    assert(prev_res + (seq![item2] + rest) =~= prev_res.push(item2) + rest);
                },
                Err(e) => {
                    assert(spec_ingest_rev(suffix, names_before) == Err::<
                        Seq<ItemView>,
                        ErrView,
                    >(e));
                },
            }
        }
    }
    proof {
        assert(rl.skip(clean@.len() as int) =~= Seq::<Seq<char>>::empty());
        match spec_ingest_rev(rl, Map::empty()) {
            Ok(items) => {
                assert(res.deep_view() + Seq::<ItemView>::empty() =~= res.deep_view());
            },
            Err(_) => {
                assert(false);
            },
        }
    }
    let mut out: Vec<KraHistoryItem> = Vec::new();
    let n = res.len();
    let mut j: usize = 0;
    while j < n
        invariant
            j <= n,
            n == res@.len(),
            out.deep_view().len() == j,
            forall|t: int|
                0 <= t < j ==> #[trigger] out.deep_view()[t] == res.deep_view()[n - 1 - t],
        decreases n - j,
    {
        let ghost prev_out = out.deep_view();
        let item = res[n - 1 - j].clone();
        out.push(item);
        proof {
            assert(out.deep_view() =~= prev_out.push(res.deep_view()[n - 1 - j]));
        }
        j += 1;
    }
    proof {
        assert(out.deep_view() =~= res.deep_view().reverse());
    }
    Ok(out)
}

/// A record's timestamp lies in the inclusive range `[start, end]`.
pub open spec fn in_range(start: Timestamp, end: Timestamp, it: ItemView) -> bool {
    start.spec_le(it.time) && it.time.spec_le(end)
}

/// The exact sum, in seconds, of the durations of a record sequence.
pub open spec fn spec_sum(s: Seq<ItemView>) -> int
    decreases s.len(),
{
    if s.len() == 0 {
        0
    } else {
        spec_sum(s.drop_last()) + s.last().duration
    }
}

pub proof fn lemma_sum_bound(s: Seq<ItemView>)
    ensures
        0 <= spec_sum(s) <= s.len() * (u32::MAX as int),
    decreases s.len(),
{
    if s.len() > 0 {
        lemma_sum_bound(s.drop_last());
    }
}

/// The fully ingested, repaired history: one record per non-blank log
/// line, oldest first.
#[derive(Debug)]
pub struct KraHistory {
    items: Vec<KraHistoryItem>,
}

impl View for KraHistory {
    type V = Seq<ItemView>;

    closed spec fn view(&self) -> Seq<ItemView> {
        self.items.deep_view()
    }
}

impl KraHistory {
    /// Every record's timestamp is well-formed and within chrono's day
    /// numbers.
    pub open spec fn wf(&self) -> bool {
        forall|t: int|
            0 <= t < self@.len() ==> (#[trigger] self@[t]).time.wf() && i32::MIN
                <= self@[t].time.day <= i32::MAX
    }

    /// Ingests raw log text into a history.
    pub fn from_content(content: &str) -> (r: Result<KraHistory, KraHistoryError>)
        ensures
            r matches Ok(h) ==> spec_read_history(content@) == Ok::<Seq<ItemView>, ErrView>(h@)
                && h.wf(),
            r matches Err(e) ==> spec_read_history(content@) == Err::<Seq<ItemView>, ErrView>(e@),
    {
        match read_kra_history(content) {
            Ok(items) => Ok(KraHistory { items }),
            Err(e) => Err(e),
        }
    }

    /// All records, oldest first.
    pub fn iter(&self) -> (r: &Vec<KraHistoryItem>)
        ensures
            r.deep_view() == self@,
    {
        &self.items
    }

    /// The records whose timestamp falls inside the inclusive range, in
    /// original order.
    pub fn between_inclusive(&self, start: Timestamp, end: Timestamp) -> (r: Vec<KraHistoryItem>)
        ensures
            r.deep_view() == self@.filter(|it: ItemView| in_range(start, end, it)),
    {
        let mut out: Vec<KraHistoryItem> = Vec::new();
        let n = self.items.len();
        let mut i: usize = 0;
        while i < n
            invariant
                i <= n,
                n == self.items@.len(),
                out.deep_view() == self@.take(i as int).filter(
                    |it: ItemView| in_range(start, end, it),
                ),
            decreases n - i,
        {
            let ghost prev = out.deep_view();
            let keep = {
                let item = &self.items[i];
                start.le(&item.time) && item.time.le(&end)
            };
            if keep {
                let item = self.items[i].clone();
                out.push(item);
                proof {
                    assert(out.deep_view() =~= prev.push(self@[i as int]));
                }
            }
            proof {
                let p = |it: ItemView| in_range(start, end, it);
                assert(self@[i as int] == self.items@[i as int]@);
                assert(self@.take(i as int + 1) =~= self@.take(i as int).push(self@[i as int]));
                self@.take(i as int).lemma_filter_push(self@[i as int], p);
            }
            i += 1;
        }
        proof {
            assert(self@.take(n as int) =~= self@);
        }
        out
    }

    /// The total seconds worked inside the inclusive range.
    pub fn sum_between(&self, start: Timestamp, end: Timestamp) -> (r: u64)
        requires
            self@.len() <= 0xFFFF_FFFF,
        ensures
            r as int == spec_sum(self@.filter(|it: ItemView| in_range(start, end, it))),
    {
        let mut acc: u64 = 0;
        let n = self.items.len();
        let mut i: usize = 0;
        while i < n
            invariant
                i <= n,
                n == self.items@.len(),
                self@.len() <= 0xFFFF_FFFF,
                acc as int == spec_sum(self@.take(i as int).filter(
                    |it: ItemView| in_range(start, end, it),
                )),
            decreases n - i,
        {
            proof {
                let p = |it: ItemView| in_range(start, end, it);
                assert(self@[i as int] == self.items@[i as int]@);
                assert(self@.take(i as int + 1) =~= self@.take(i as int).push(self@[i as int]));
                self@.take(i as int).lemma_filter_push(self@[i as int], p);
                self@.take(i as int).lemma_filter_len(p);
                lemma_sum_bound(self@.take(i as int).filter(p));
            }
            let keep = {
                let item = &self.items[i];
                start.le(&item.time) && item.time.le(&end)
            };
            if keep {
                let d = self.items[i].duration;
                proof {
                    let p = |it: ItemView| in_range(start, end, it);
                    let fprev = self@.take(i as int).filter(p);
                    assert(fprev.push(self@[i as int]).drop_last() =~= fprev);
                    assert(spec_sum(fprev.push(self@[i as int])) == spec_sum(fprev) + self@[
                        i as int
                    ].duration);
                }
                acc = acc + (d as u64);
            }
            i += 1;
        }
        proof {
            assert(self@.take(n as int) =~= self@);
        }
        acc
    }

    /// One entry per calendar date between the bounds, each with the total
    /// seconds worked inside that logical day's inclusive range.
    pub fn daily_durations(&self, start_hour: u32, from_date: Date, to_date: Date) -> (r: Result<
        Vec<(Date, u64)>,
        KraHistoryError,
    >)
        requires
            self@.len() <= 0xFFFF_FFFF,
            to_date.day < i64::MAX,
        ensures
            start_hour >= 24 ==> (r matches Err(e) && e is InvalidConfiguration),
            start_hour < 24 ==> (r matches Ok(v) && {
                &&& v@.len() == if from_date.day <= to_date.day {
                    to_date.day - from_date.day + 1
                } else {
                    0
                }
                &&& forall|i: int|
                    0 <= i < v@.len() ==> (#[trigger] v@[i].0).day == from_date.day + i
                &&& forall|i: int|
                    0 <= i < v@.len() ==> (#[trigger] v@[i].1) as int == spec_sum(
                        self@.filter(
                            |it: ItemView|
                                spec_day_range(start_hour, v@[i].0).spec_contains(it.time),
                        ),
                    )
            }),
    {
        let ranges = day_range_iter(start_hour, from_date, to_date)?;
        let mut v: Vec<(Date, u64)> = Vec::new();
        let mut t: usize = 0;
        while t < ranges.len()
            invariant
                t <= ranges@.len(),
                self@.len() <= 0xFFFF_FFFF,
                start_hour < 24,
                forall|i: int|
                    0 <= i < ranges@.len() ==> #[trigger] ranges@[i].1 == spec_day_range(
                        start_hour,
                        ranges@[i].0,
                    ),
                v@.len() == t,
                forall|i: int| 0 <= i < t ==> (#[trigger] v@[i].0) == ranges@[i].0,
                forall|i: int|
                    0 <= i < t ==> (#[trigger] v@[i].1) as int == spec_sum(
                        self@.filter(
                            |it: ItemView|
                                spec_day_range(start_hour, v@[i].0).spec_contains(it.time),
                        ),
                    ),
            decreases ranges@.len() - t,
        {
            let date = ranges[t].0;
            let dr = ranges[t].1;
            let s = self.sum_between(dr.start, dr.end);
            proof {
                let p1 = |it: ItemView| in_range(dr.start, dr.end, it);
                let p2 = |it: ItemView| spec_day_range(start_hour, date).spec_contains(it.time);
                assert(p1 =~= p2);
            }
            v.push((date, s));
            t += 1;
        }
        Ok(v)
    }

    /// How a timestamp relates a record to a logical day: it belongs to the
    /// day exactly when it lies inside that day's inclusive range.
    pub proof fn lemma_belong_day_iff_in_range(start_hour: u32, date: Date, t: Timestamp)
        requires
            start_hour < 24,
            t.wf(),
            t.day > i64::MIN,
            date.day < i64::MAX,
        ensures
            crate::date_util::spec_belong_day(start_hour, t) == date <==> spec_day_range(
                start_hour,
                date,
            ).spec_contains(t),
    {
    }
}

/// Over a range strictly before or after every record the filtered
/// sequence is empty; over a range that covers every record it is the
/// whole history, in original order.
pub proof fn lemma_between_inclusive_extremes(
    items: Seq<ItemView>,
    start: Timestamp,
    end: Timestamp,
)
    ensures
        (forall|t: int|
            0 <= t < items.len() ==> !in_range(start, end, #[trigger] items[t])) ==> items.filter(
            |it: ItemView| in_range(start, end, it),
        ) == Seq::<ItemView>::empty(),
        (forall|t: int|
            0 <= t < items.len() ==> in_range(start, end, #[trigger] items[t])) ==> items.filter(
            |it: ItemView| in_range(start, end, it),
        ) == items,
    decreases items.len(),
{
    let p = |it: ItemView| in_range(start, end, it);
    if items.len() == 0 {
        assert(items.filter(p) =~= Seq::<ItemView>::empty());
    } else {
        lemma_between_inclusive_extremes(items.drop_last(), start, end);
        items.drop_last().lemma_filter_push(items.last(), p);
        assert(items.drop_last().push(items.last()) =~= items);
        if forall|t: int| 0 <= t < items.len() ==> !in_range(start, end, #[trigger] items[t]) {
            assert(forall|t: int|
                0 <= t < items.drop_last().len() ==> !in_range(
                    start,
                    end,
                    #[trigger] items.drop_last()[t],
                ));
            assert(!p(items.last()));
        }
        if forall|t: int| 0 <= t < items.len() ==> in_range(start, end, #[trigger] items[t]) {
            assert(forall|t: int|
                0 <= t < items.drop_last().len() ==> in_range(
                    start,
                    end,
                    #[trigger] items.drop_last()[t],
                ));
            assert(p(items.last()));
        }
    }
}

/// The largest of a list of per-day totals, zero where the list is empty.
pub fn max_total(totals: &Vec<(Date, u64)>) -> (r: u64)
    ensures
        forall|i: int| 0 <= i < totals@.len() ==> (#[trigger] totals@[i]).1 <= r,
        r == 0 || exists|i: int| 0 <= i < totals@.len() && (#[trigger] totals@[i]).1 == r,
{
    let mut r: u64 = 0;
    let mut i: usize = 0;
    while i < totals.len()
        invariant
            i <= totals@.len(),
            forall|j: int| 0 <= j < i ==> (#[trigger] totals@[j]).1 <= r,
            r == 0 || exists|j: int| 0 <= j < i && (#[trigger] totals@[j]).1 == r,
        decreases totals@.len() - i,
    {
        if totals[i].1 > r {
            r = totals[i].1;
        }
        i += 1;
    }
    r
}

/// How many of the per-day totals are positive: the days that saw work.
pub fn count_positive(totals: &Vec<(Date, u64)>) -> (r: usize)
    ensures
        r as int == totals@.filter(|p: (Date, u64)| p.1 > 0).len(),
{
    let mut r: usize = 0;
    let mut i: usize = 0;
    while i < totals.len()
        invariant
            i <= totals@.len(),
            r as int == totals@.take(i as int).filter(|p: (Date, u64)| p.1 > 0).len(),
            r <= i,
        decreases totals@.len() - i,
    {
        proof {
            let q = |p: (Date, u64)| p.1 > 0;
            assert(totals@.take(i as int + 1) =~= totals@.take(i as int).push(totals@[i as int]));
            totals@.take(i as int).lemma_filter_push(totals@[i as int], q);
        }
        if totals[i].1 > 0 {
            r += 1;
        }
        i += 1;
    }
    proof {
        assert(totals@.take(totals@.len() as int) =~= totals@);
    }
    r
}

} // verus!
