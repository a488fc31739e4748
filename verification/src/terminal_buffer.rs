//! The terminal's bounded line buffer.
//!
//! Received bytes are cut into lines at each line feed; bytes after the last
//! line feed wait in `pending` until the next line feed, or until they reach
//! 4096 bytes, when they become a line of their own. Only the newest
//! `max_entries` lines are kept; with `max_entries` 0 every line is kept. The
//! rendering of all kept lines is cached and updated as lines come and go.
use vstd::prelude::*;
use std::collections::VecDeque;
use crate::render::{BufferEntry, RenderSettings, render, render_entry};
use crate::serial_types::{Direction, TranslationFormat, TxMode};
use crate::text::{
    lemma_drop_encoded_prefix, lemma_encode_concat, lemma_prefix_boundary, string_byte_len,
    string_drain_front, utf8_len,
};
use crate::timestamp::Timestamp;

verus! {

broadcast use vstd::seq_lib::group_seq_properties;

/// A line of the terminal as a value.
pub struct EntryModel {
    pub timestamp: Timestamp,
    pub direction: Direction,
    pub data: Seq<u8>,
}

impl BufferEntry {
    pub open spec fn model(&self) -> EntryModel {
        EntryModel { timestamp: self.timestamp, direction: self.direction, data: self.data@ }
    }
}

pub open spec fn models(es: Seq<BufferEntry>) -> Seq<EntryModel> {
    es.map_values(|e: BufferEntry| e.model())
}

/// The buffer as a value.
pub struct TerminalModel {
    pub entries: Seq<EntryModel>,
    pub pending: Seq<u8>,
    pub max_entries: nat,
    pub version: nat,
    pub total_lines: nat,
    /// The settings the cached rendering was made with.
    pub cache_settings: RenderSettings,
}

/// Whether `len` lines fit the limit `max_entries` (0 means "unlimited").
pub open spec fn within_limit(len: nat, max_entries: nat) -> bool {
    max_entries == 0 || len <= max_entries
}

/// The line size at which pending bytes are flushed without a line feed.
pub open spec fn flush_threshold() -> nat {
    4096
}

pub open spec fn line_for(n: nat, show: bool) -> Option<nat> {
    if show {
        Some(n)
    } else {
        None
    }
}

pub open spec fn render_model(e: EntryModel, line: Option<nat>, s: RenderSettings) -> Seq<char> {
    render(
        e.timestamp,
        e.direction,
        e.data,
        line,
        s.show_timestamps,
        s.enable_translation,
        s.translation_format,
    )
}

/// Renderings of `es`, the first numbered `first`, the next `first + 1`, ...
pub open spec fn render_all(es: Seq<EntryModel>, first: nat, s: RenderSettings) -> Seq<char>
    decreases es.len(),
{
    if es.len() == 0 {
        seq![]
    } else {
        render_all(es.drop_last(), first, s) + render_model(
            es.last(),
            line_for((first + es.len() - 1) as nat, s.show_line_numbers),
            s,
        )
    }
}

/// Lines completed, and bytes left over, when `bytes` follow `pending`:
/// every line feed closes a line that includes it.
pub open spec fn split_lines(pending: Seq<u8>, bytes: Seq<u8>) -> (Seq<Seq<u8>>, Seq<u8>)
    decreases bytes.len(),
{
    if bytes.len() == 0 {
        (seq![], pending)
    } else {
        let prev = split_lines(pending, bytes.drop_last());
        let cur = prev.1.push(bytes.last());
        if bytes.last() == 10 {
            (prev.0.push(cur), seq![])
        } else {
            (prev.0, cur)
        }
    }
}

/// As `split_lines`, and left-over bytes of at least 4096 become a line too.
pub open spec fn lines_after_push(pending: Seq<u8>, bytes: Seq<u8>) -> (Seq<Seq<u8>>, Seq<u8>) {
    let r = split_lines(pending, bytes);
    if r.1.len() >= flush_threshold() {
        (r.0.push(r.1), seq![])
    } else {
        r
    }
}

pub open spec fn as_entries(lines: Seq<Seq<u8>>, ts: Timestamp, dir: Direction) -> Seq<EntryModel> {
    lines.map_values(|d: Seq<u8>| EntryModel { timestamp: ts, direction: dir, data: d })
}

/// The newest `cap` elements.
pub open spec fn keep_last(es: Seq<EntryModel>, cap: nat) -> Seq<EntryModel> {
    if es.len() > cap {
        es.skip(es.len() - cap)
    } else {
        es
    }
}

/// The lines kept under the limit `max_entries`: the newest `max_entries`
/// of them, or all of them when the limit is 0 ("unlimited").
pub open spec fn apply_limit(es: Seq<EntryModel>, max_entries: nat) -> Seq<EntryModel> {
    if max_entries == 0 {
        es
    } else {
        keep_last(es, max_entries)
    }
}

/// Line number of the first kept entry.
pub open spec fn first_line(m: TerminalModel) -> nat {
    (m.total_lines - m.entries.len() + 1) as nat
}

/// What `export_to_string` yields: every kept entry with its line number,
/// then the pending bytes as a received line numbered after the last one,
/// stamped `now`.
pub open spec fn export_text(m: TerminalModel, s: RenderSettings, now: Timestamp) -> Seq<char> {
    render_all(m.entries, first_line(m), s) + if m.pending.len() > 0 {
        render_model(
            EntryModel { timestamp: now, direction: Direction::Rx, data: m.pending },
            line_for(m.total_lines + 1, s.show_line_numbers),
            s,
        )
    } else {
        seq![]
    }
}

pub struct TerminalBuffer {
    entries: VecDeque<BufferEntry>,
    pending: Vec<u8>,
    max_entries: usize,
    version: usize,
    total_lines_received: usize,
    cached_text: String,
    cached_show_timestamps: bool,
    cached_enable_translation: bool,
    cached_translation_format: TranslationFormat,
    cached_show_line_numbers: bool,
}

impl View for TerminalBuffer {
    type V = TerminalModel;

    closed spec fn view(&self) -> TerminalModel {
        TerminalModel {
            entries: models(self.entries@),
            pending: self.pending@,
            max_entries: self.max_entries as nat,
            version: self.version as nat,
            total_lines: self.total_lines_received as nat,
            cache_settings: self.cache_settings(),
        }
    }
}

// ---------------------------------------------------------------------------
// Lemmas on renderings.
// ---------------------------------------------------------------------------

/// Appending an entry appends its rendering.
pub proof fn lemma_render_all_push(es: Seq<EntryModel>, e: EntryModel, first: nat, s: RenderSettings)
    ensures
        render_all(es.push(e), first, s) == render_all(es, first, s) + render_model(
            e,
            line_for(first + es.len(), s.show_line_numbers),
            s,
        ),
{
    assert(es.push(e).drop_last() =~= es);
}

/// The rendering starts with the rendering of the first entry.
pub proof fn lemma_render_all_front(es: Seq<EntryModel>, first: nat, s: RenderSettings)
    requires
        es.len() > 0,
    ensures
        render_all(es, first, s) == render_model(es[0], line_for(first, s.show_line_numbers), s)
            + render_all(es.drop_first(), first + 1, s),
    decreases es.len(),
{
    let line = line_for(first, s.show_line_numbers);
    if es.len() == 1 {
        assert(es.drop_last() =~= Seq::<EntryModel>::empty());
        assert(es.drop_first() =~= Seq::<EntryModel>::empty());
        assert(es.last() == es[0]);
        assert(render_all(es.drop_last(), first, s) =~= Seq::<char>::empty());
        assert(render_all(es, first, s) =~= render_model(es[0], line, s));
        assert(render_all(es.drop_first(), first + 1, s) =~= Seq::<char>::empty());
        assert(render_model(es[0], line, s) + Seq::<char>::empty() =~= render_model(es[0], line, s));
    } else {
        let p = es.drop_last();
        let q = es.drop_first();
        let last = render_model(
            es.last(),
            line_for((first + es.len() - 1) as nat, s.show_line_numbers),
            s,
        );
        lemma_render_all_front(p, first, s);
        assert(p.drop_first() =~= q.drop_last());
        assert(q.last() == es.last());
        assert(p[0] == es[0]);
        assert(render_all(es, first, s) == render_all(p, first, s) + last);
        assert(render_all(q, first + 1, s) == render_all(q.drop_last(), first + 1, s) + last);
        assert(render_all(es, first, s) =~= render_model(es[0], line, s) + (render_all(
            p.drop_first(),
            first + 1,
            s,
        ) + last));
    }
}

/// The byte lengths each entry records stay right when the oldest is dropped.
proof fn lemma_lens_shift(
    es: Seq<BufferEntry>,
    rest: Seq<BufferEntry>,
    first: nat,
    show: bool,
    s: RenderSettings,
)
    requires
        es.len() > 0,
        rest == es.drop_first(),
        forall|i: int|
            0 <= i < es.len() ==> (#[trigger] es[i]).formatted_len == utf8_len(
                render_model(es[i].model(), line_for((first + i) as nat, show), s),
            ),
    ensures
        forall|i: int|
            0 <= i < rest.len() ==> (#[trigger] rest[i]).formatted_len == utf8_len(
                render_model(rest[i].model(), line_for((first + 1 + i) as nat, show), s),
            ),
{
    assert forall|i: int| 0 <= i < rest.len() implies (#[trigger] rest[i]).formatted_len
        == utf8_len(render_model(rest[i].model(), line_for((first + 1 + i) as nat, show), s)) by {
        assert(rest[i] == es[i + 1]);
    }
}

impl TerminalBuffer {
    closed spec fn cache_settings(&self) -> RenderSettings {
        RenderSettings {
            show_line_numbers: self.cached_show_line_numbers,
            show_timestamps: self.cached_show_timestamps,
            enable_translation: self.cached_enable_translation,
            translation_format: self.cached_translation_format,
        }
    }

    closed spec fn first_line_no(&self) -> nat {
        (self.total_lines_received - self.entries@.len() + 1) as nat
    }

    /// The cached text is the rendering of the kept entries, and each entry
    /// knows the byte length of its own rendering.
    closed spec fn cache_ok(&self) -> bool {
        &&& self.entries@.len() <= self.total_lines_received
        &&& self.total_lines_received < usize::MAX
        &&& self.cached_text@ == render_all(
            models(self.entries@),
            self.first_line_no(),
            self.cache_settings(),
        )
        &&& forall|i: int|
            0 <= i < self.entries@.len() ==> (#[trigger] self.entries@[i]).formatted_len
                == utf8_len(
                render_model(
                    self.entries@[i].model(),
                    line_for(
                        (self.first_line_no() + i) as nat,
                        self.cached_show_line_numbers,
                    ),
                    self.cache_settings(),
                ),
            )
    }

    /// Well-formedness: the cache is consistent, the line limit is kept
    /// kept, and fewer than 4096 bytes are pending, none of them a line feed.
    pub closed spec fn wf(&self) -> bool {
        &&& self.cache_ok()
        &&& within_limit(self.entries@.len(), self.max_entries as nat)
        &&& self.pending@.len() < flush_threshold()
        &&& no_line_feed(self.pending@)
    }

    /// An empty buffer keeping at most `max_entries` lines (0: unlimited).
    pub fn new(max_entries: usize) -> (b: Self)
        ensures
            b.wf(),
            b@.entries.len() == 0,
            b@.pending.len() == 0,
            b@.max_entries == max_entries,
            b@.version == 0,
            b@.total_lines == 0,
            b@.cache_settings == (RenderSettings {
                show_line_numbers: true,
                show_timestamps: true,
                enable_translation: true,
                translation_format: TranslationFormat::Hex,
            }),
    {
        let b = TerminalBuffer {
            entries: VecDeque::new(),
            pending: Vec::new(),
            max_entries,
            version: 0,
            total_lines_received: 0,
            cached_text: String::new(),
            cached_show_timestamps: true,
            cached_enable_translation: true,
            cached_translation_format: TranslationFormat::Hex,
            cached_show_line_numbers: true,
        };
        assert(models(b.entries@) =~= Seq::<EntryModel>::empty());
        b
    }

    /// Appends one entry and its rendering (no truncation).
    fn append_entry(&mut self, data: Vec<u8>, timestamp: Timestamp, direction: Direction)
        requires
            old(self).cache_ok(),
            old(self).total_lines_received + 1 < usize::MAX,
        ensures
            final(self).cache_ok(),
            final(self)@ == (TerminalModel {
                entries: old(self)@.entries.push(
                    EntryModel { timestamp, direction, data: data@ },
                ),
                total_lines: old(self)@.total_lines + 1,
                ..old(self)@
            }),
    {
        let ghost old_es = self.entries@;
        let ghost first = self.first_line_no();
        self.total_lines_received = self.total_lines_received + 1;
        let line_num = if self.cached_show_line_numbers {
            Some(self.total_lines_received)
        } else {
            None
        };
        let entry_str = render_entry(
            &timestamp,
            direction,
            data.as_slice(),
            line_num,
            self.cached_show_timestamps,
            self.cached_enable_translation,
            self.cached_translation_format,
        );
        let formatted_len = string_byte_len(&entry_str);
        let entry = BufferEntry { timestamp, direction, data, formatted_len };
        self.cached_text.append(entry_str.as_str());
        self.entries.push_back(entry);
        proof {
            let s = self.cache_settings();
            let e = entry.model();
            assert(models(self.entries@) =~= models(old_es).push(e));
            assert(self.first_line_no() == first);
            assert(first + old_es.len() == self.total_lines_received);
            lemma_render_all_push(models(old_es), e, first, s);
            assert forall|i: int| 0 <= i < self.entries@.len() implies (#[trigger] self.entries@[
                i
            ]).formatted_len == utf8_len(
                render_model(
                    self.entries@[i].model(),
                    line_for((self.first_line_no() + i) as nat, self.cached_show_line_numbers),
                    self.cache_settings(),
                ),
            ) by {
                if i < old_es.len() {
                    assert(self.entries@[i] == old_es[i]);
                }
            }
        }
    }

    /// Drops the oldest entries beyond the limit (none when it is 0).
    fn truncate_internal(&mut self)
        requires
            old(self).cache_ok(),
        ensures
            final(self).cache_ok(),
            final(self)@ == (TerminalModel {
                entries: apply_limit(old(self)@.entries, old(self)@.max_entries),
                ..old(self)@
            }),
            final(self).pending == old(self).pending,
    {
        let max = self.max_entries;
        let ghost start = models(self.entries@);
        while max > 0 && self.entries.len() > max
            invariant
                self.cache_ok(),
                max == self.max_entries,
                self.max_entries == old(self).max_entries,
                self.pending == old(self).pending,
                self.version == old(self).version,
                self.total_lines_received == old(self).total_lines_received,
                self.cache_settings() == old(self).cache_settings(),
                start == models(old(self).entries@),
                self.entries@.len() <= start.len(),
                models(self.entries@) == start.skip(start.len() - self.entries@.len()),
                self.entries@.len() == start.len() || self.entries@.len() >= max,
                max == 0 ==> self.entries@.len() == start.len(),
            decreases self.entries@.len(),
        {
            let ghost es = self.entries@;
            let ghost first = self.first_line_no();
            let ghost s = self.cache_settings();
            let ghost text = self.cached_text@;
            let popped = self.entries.pop_front();
            if let Some(popped) = popped {
                let ghost head = render_model(
                    es[0].model(),
                    line_for(first, self.cached_show_line_numbers),
                    s,
                );
                let ghost tail = render_all(models(es.drop_first()), first + 1, s);
                proof {
                    assert(models(es).drop_first() =~= models(es.drop_first()));
                    lemma_render_all_front(models(es), first, s);
                    assert(text == head + tail);
                    assert(popped == es[0]);
                    assert(popped.formatted_len == utf8_len(head)) by {
                        assert(es[0].formatted_len == utf8_len(head));
                    }
                    lemma_encode_concat(head, tail);
                    lemma_prefix_boundary(head, tail);
                }
                if popped.formatted_len <= string_byte_len(&self.cached_text) {
                    string_drain_front(&mut self.cached_text, popped.formatted_len);
                    proof {
                        lemma_drop_encoded_prefix(head, tail, self.cached_text@);
                    }
                } else {
                    proof {
                        assert(false);
                    }
                    self.cached_text = String::new();
                }
                proof {
                    assert(self.entries@ =~= es.drop_first());
                    assert(self.first_line_no() == first + 1);
                    assert(models(self.entries@) =~= start.skip(
                        start.len() - self.entries@.len(),
                    ));
                    lemma_lens_shift(es, self.entries@, first, self.cached_show_line_numbers, s);
                }
            }
        }
        proof {
            if max > 0 && start.len() > max {
                assert(self.entries@.len() == max);
            } else {
                assert(start.skip(0) =~= start);
            }
            assert(self@.entries =~= apply_limit(old(self)@.entries, old(self)@.max_entries));
            assert(self@.pending == old(self)@.pending);
            assert(self@.cache_settings == old(self)@.cache_settings);
        }
    }

    /// Sets the line limit (0: unlimited) and drops the oldest lines beyond it.
    pub fn set_max_entries(&mut self, max: usize)
        requires
            old(self).wf(),
        ensures
            final(self).wf(),
            final(self)@ == (TerminalModel {
                max_entries: max as nat,
                entries: apply_limit(old(self)@.entries, max as nat),
                ..old(self)@
            }),
    {
        self.max_entries = max;
        self.truncate_internal();
    }

    /// Forgets every line and the pending bytes; numbering starts again.
    pub fn clear(&mut self)
        requires
            old(self).wf(),
            old(self)@.version < usize::MAX,
        ensures
            final(self).wf(),
            final(self)@ == (TerminalModel {
                entries: seq![],
                pending: seq![],
                total_lines: 0,
                version: old(self)@.version + 1,
                ..old(self)@
            }),
    {
        self.entries.clear();
        self.pending.clear();
        self.cached_text = String::new();
        self.total_lines_received = 0;
        self.version = self.version + 1;
        assert(models(self.entries@) =~= Seq::<EntryModel>::empty());
    }

    /// Adds received (or sent) bytes: complete lines become entries stamped
    /// `timestamp`, the rest waits in `pending` (and becomes an entry too
    /// once it reaches 4096 bytes); then the oldest lines beyond the limit
    /// are dropped. Nothing happens for an empty slice.
    pub fn push_bytes(&mut self, bytes: &[u8], direction: Direction, timestamp: Timestamp)
        requires
            old(self).wf(),
            old(self)@.total_lines + bytes@.len() + 1 < usize::MAX,
            old(self)@.version < usize::MAX,
        ensures
            final(self).wf(),
            bytes@.len() == 0 ==> final(self)@ == old(self)@,
            bytes@.len() > 0 ==> final(self)@ == push_model(old(self)@, bytes@, direction, timestamp),
    {
        if bytes.len() == 0 {
            return;
        }
        let ghost old_m = self@;
        proof {
            lemma_split_lines_count(old_m.pending, bytes@);
            lemma_pending_after_push(old_m.pending, bytes@);
        }
        self.absorb_bytes(bytes, direction, timestamp);
        let ghost mid = self@;
        self.flush_pending(direction, timestamp);
        proof {
            let r = split_lines(old_m.pending, bytes@);
            let e = EntryModel { timestamp, direction, data: r.1 };
            if r.1.len() >= flush_threshold() {
                assert(as_entries(r.0.push(r.1), timestamp, direction) =~= as_entries(
                    r.0,
                    timestamp,
                    direction,
                ).push(e));
                assert(self@.entries =~= old_m.entries + as_entries(
                    lines_after_push(old_m.pending, bytes@).0,
                    timestamp,
                    direction,
                ));
            }
        }
        self.truncate_internal();
        self.version = self.version + 1;
    }

    /// Cuts `pending` followed by `bytes` into lines at each line feed and
    /// appends them as entries; the rest stays pending.
    fn absorb_bytes(&mut self, bytes: &[u8], direction: Direction, timestamp: Timestamp)
        requires
            old(self).cache_ok(),
            old(self)@.total_lines + bytes@.len() + 1 < usize::MAX,
        ensures
            final(self).cache_ok(),
            final(self)@ == (TerminalModel {
                entries: old(self)@.entries + as_entries(
                    split_lines(old(self)@.pending, bytes@).0,
                    timestamp,
                    direction,
                ),
                pending: split_lines(old(self)@.pending, bytes@).1,
                total_lines: old(self)@.total_lines + split_lines(old(self)@.pending, bytes@).0.len(),
                ..old(self)@
            }),
    {
        let ghost old_m = self@;
        let ghost mut lines: Seq<Seq<u8>> = seq![];
        let mut i: usize = 0;
        proof {
            assert(bytes@.take(0) =~= Seq::<u8>::empty());
            assert(old_m.entries + as_entries(lines, timestamp, direction) =~= old_m.entries);
        }
        while i < bytes.len()
            invariant
                0 <= i <= bytes.len(),
                self.cache_ok(),
                lines.len() <= i,
                old_m.total_lines + bytes@.len() + 1 < usize::MAX,
                split_lines(old_m.pending, bytes@.take(i as int)) == (lines, self@.pending),
                self@ == (TerminalModel {
                    entries: old_m.entries + as_entries(lines, timestamp, direction),
                    pending: self@.pending,
                    total_lines: old_m.total_lines + lines.len(),
                    ..old_m
                }),
            decreases bytes.len() - i,
        {
            let b = bytes[i];
            proof {
                assert(bytes@.take(i + 1).drop_last() =~= bytes@.take(i as int));
                assert(bytes@.take(i + 1).last() == b);
            }
            self.pending.push(b);
            if b == 10 {
                let mut line: Vec<u8> = Vec::new();
                std::mem::swap(&mut line, &mut self.pending);
                self.append_entry(line, timestamp, direction);
                proof {
                    let e = EntryModel { timestamp, direction, data: line@ };
                    assert(as_entries(lines.push(line@), timestamp, direction) =~= as_entries(
                        lines,
                        timestamp,
                        direction,
                    ).push(e));
                    lines = lines.push(line@);
                    assert(self@.entries =~= old_m.entries + as_entries(lines, timestamp, direction));
                }
            }
            i = i + 1;
        }
        assert(bytes@.take(bytes.len() as int) =~= bytes@);
    }

    /// Turns pending bytes of at least 4096 into an entry of their own.
    fn flush_pending(&mut self, direction: Direction, timestamp: Timestamp)
        requires
            old(self).cache_ok(),
            old(self)@.total_lines + 1 < usize::MAX,
        ensures
            final(self).cache_ok(),
            final(self)@.pending.len() < flush_threshold(),
            old(self)@.pending.len() >= flush_threshold() ==> final(self)@ == (TerminalModel {
                entries: old(self)@.entries.push(
                    EntryModel { timestamp, direction, data: old(self)@.pending },
                ),
                pending: seq![],
                total_lines: old(self)@.total_lines + 1,
                ..old(self)@
            }),
            old(self)@.pending.len() < flush_threshold() ==> final(self)@ == old(self)@,
    {
        if self.pending.len() >= 4096 {
            let mut line: Vec<u8> = Vec::new();
            std::mem::swap(&mut line, &mut self.pending);
            self.append_entry(line, timestamp, direction);
        }
    }

    /// `push_bytes` for received bytes, followed by a truncation to the limit.
    pub fn push_bytes_and_truncate(&mut self, bytes: &[u8], timestamp: Timestamp)
        requires
            old(self).wf(),
            old(self)@.total_lines + bytes@.len() + 1 < usize::MAX,
            old(self)@.version < usize::MAX,
        ensures
            final(self).wf(),
            bytes@.len() == 0 ==> final(self)@ == old(self)@,
            bytes@.len() > 0 ==> final(self)@ == push_model(
                old(self)@,
                bytes@,
                Direction::Rx,
                timestamp,
            ),
    {
        self.push_bytes(bytes, Direction::Rx, timestamp);
        let ghost mid = self@;
        self.truncate_internal();
        proof {
            assert(apply_limit(mid.entries, mid.max_entries) =~= mid.entries);
        }
    }

    /// Records a transmitted message as one entry tagged with its mode,
    /// whatever bytes it holds; pending received bytes are left alone.
    pub fn push_tx_entry(&mut self, bytes: &[u8], mode: TxMode, timestamp: Timestamp)
        requires
            old(self).wf(),
            old(self)@.total_lines + 2 < usize::MAX,
            old(self)@.version < usize::MAX,
        ensures
            final(self).wf(),
            final(self)@ == (TerminalModel {
                entries: apply_limit(
                    old(self)@.entries.push(
                        EntryModel { timestamp, direction: Direction::Tx(mode), data: bytes@ },
                    ),
                    old(self)@.max_entries,
                ),
                total_lines: old(self)@.total_lines + 1,
                version: old(self)@.version + 1,
                ..old(self)@
            }),
    {
        let data = vstd::slice::slice_to_vec(bytes);
        self.append_entry(data, timestamp, Direction::Tx(mode));
        self.truncate_internal();
        self.version = self.version + 1;
    }

    /// How many lines have been numbered since the last clear.
    pub fn total_lines_received(&self) -> (n: usize)
        ensures
            n == self@.total_lines,
    {
        self.total_lines_received
    }

    /// Whether `n` more received bytes (and a version step) fit the counters.
    pub fn has_room_for(&self, n: usize) -> (b: bool)
        ensures
            b == (self@.total_lines + n + 1 < usize::MAX && self@.version < usize::MAX),
    {
        self.total_lines_received < usize::MAX - 1 && n < usize::MAX - 1
            - self.total_lines_received && self.version < usize::MAX
    }

    /// Increases with every change of the shown lines.
    pub fn version(&self) -> (v: usize)
        ensures
            v == self@.version,
    {
        self.version
    }

    /// The kept lines, oldest first; each records the byte length of its
    /// rendering under the cache settings, with its line number.
    pub fn entries(&self) -> (e: &VecDeque<BufferEntry>)
        ensures
            models(e@) == self@.entries,
            self.wf() ==> forall|i: int|
                0 <= i < e@.len() ==> (#[trigger] e@[i]).formatted_len == utf8_len(
                    render_model(
                        self@.entries[i],
                        line_for(
                            (first_line(self@) + i) as nat,
                            self@.cache_settings.show_line_numbers,
                        ),
                        self@.cache_settings,
                    ),
                ),
    {
        &self.entries
    }

    pub fn pending(&self) -> (p: &[u8])
        ensures
            p@ == self@.pending,
    {
        self.pending.as_slice()
    }

    /// Renders one entry (see `render_entry`).
    pub fn format_entry(
        entry: &BufferEntry,
        line_number: Option<usize>,
        show_timestamps: bool,
        enable_translation: bool,
        translation_format: TranslationFormat,
    ) -> (s: String)
        ensures
            s@ == render(
                entry.timestamp,
                entry.direction,
                entry.data@,
                match line_number {
                    Some(n) => Some(n as nat),
                    None => None,
                },
                show_timestamps,
                enable_translation,
                translation_format,
            ),
    {
        render_entry(
            &entry.timestamp,
            entry.direction,
            entry.data.as_slice(),
            line_number,
            show_timestamps,
            enable_translation,
            translation_format,
        )
    }

    /// Re-renders every kept entry with the current cache settings.
    fn rebuild_cache(&mut self)
        requires
            old(self).entries@.len() <= old(self).total_lines_received,
            old(self).total_lines_received < usize::MAX,
        ensures
            final(self).cache_ok(),
            final(self)@ == old(self)@,
            final(self).max_entries == old(self).max_entries,
            final(self).pending == old(self).pending,
    {
        let ghost orig = models(self.entries@);
        let ghost s = self.cache_settings();
        let ghost first = (self.total_lines_received - self.entries@.len() + 1) as nat;
        self.cached_text = String::new();
        let mut rest: VecDeque<BufferEntry> = VecDeque::new();
        std::mem::swap(&mut rest, &mut self.entries);
        let mut current_num = self.total_lines_received - rest.len();
        proof {
            assert(models(self.entries@) =~= Seq::<EntryModel>::empty());
            assert(models(self.entries@) + models(rest@) =~= orig);
        }
        while rest.len() > 0
            invariant
                models(self.entries@) + models(rest@) == orig,
                s == self.cache_settings(),
                self.total_lines_received == old(self).total_lines_received,
                self.total_lines_received < usize::MAX,
                orig.len() <= self.total_lines_received,
                first == self.total_lines_received - orig.len() + 1,
                current_num == first - 1 + self.entries@.len(),
                self.cached_text@ == render_all(models(self.entries@), first, s),
                forall|i: int|
                    0 <= i < self.entries@.len() ==> (#[trigger] self.entries@[i]).formatted_len
                        == utf8_len(
                        render_model(
                            self.entries@[i].model(),
                            line_for((first + i) as nat, s.show_line_numbers),
                            s,
                        ),
                    ),
                self.max_entries == old(self).max_entries,
                self.version == old(self).version,
                self.pending == old(self).pending,
            decreases rest@.len(),
        {
            let ghost done = self.entries@;
            let ghost left = rest@;
            if let Some(entry) = rest.pop_front() {
                let mut entry = entry;
                current_num = current_num + 1;
                let line_num = if self.cached_show_line_numbers {
                    Some(current_num)
                } else {
                    None
                };
                let entry_str = render_entry(
                    &entry.timestamp,
                    entry.direction,
                    entry.data.as_slice(),
                    line_num,
                    self.cached_show_timestamps,
                    self.cached_enable_translation,
                    self.cached_translation_format,
                );
                entry.formatted_len = string_byte_len(&entry_str);
                self.cached_text.append(entry_str.as_str());
                self.entries.push_back(entry);
                proof {
                    assert(entry.model() == left[0].model());
                    assert(models(self.entries@) =~= models(done).push(entry.model()));
                    assert(models(rest@) =~= models(left).drop_first());
                    assert(models(self.entries@) + models(rest@) =~= orig);
                    lemma_render_all_push(models(done), entry.model(), first, s);
                    assert forall|i: int| 0 <= i < self.entries@.len() implies (
                    #[trigger] self.entries@[i]).formatted_len == utf8_len(
                        render_model(
                            self.entries@[i].model(),
                            line_for((first + i) as nat, s.show_line_numbers),
                            s,
                        ),
                    ) by {
                        if i < done.len() {
                            assert(self.entries@[i] == done[i]);
                        }
                    }
                }
            }
        }
        proof {
            assert(models(rest@) =~= Seq::<EntryModel>::empty());
            assert(models(self.entries@) =~= orig);
            assert(self.first_line_no() == first);
            assert(self@.entries =~= old(self)@.entries);
        }
    }

    /// The whole terminal text for the given settings, with pending bytes
    /// rendered as a received line stamped `now` (the caller's clock
    /// reading); the cached rendering is switched to these settings.
    pub fn export_to_string(
        &mut self,
        show_line_numbers: bool,
        show_timestamps: bool,
        enable_translation: bool,
        translation_format: TranslationFormat,
        now: Timestamp,
    ) -> (r: String)
        requires
            old(self).wf(),
        ensures
            final(self).wf(),
            final(self)@ == (TerminalModel {
                cache_settings: RenderSettings {
                    show_line_numbers,
                    show_timestamps,
                    enable_translation,
                    translation_format,
                },
                ..old(self)@
            }),
            r@ == export_text(
                old(self)@,
                RenderSettings {
                    show_line_numbers,
                    show_timestamps,
                    enable_translation,
                    translation_format,
                },
                now,
            ),
    {
        if self.cached_show_timestamps != show_timestamps || self.cached_enable_translation
            != enable_translation || self.cached_translation_format != translation_format
            || self.cached_show_line_numbers != show_line_numbers || (string_byte_len(
            &self.cached_text,
        ) == 0 && self.entries.len() > 0) {
            self.cached_show_timestamps = show_timestamps;
            self.cached_enable_translation = enable_translation;
            self.cached_translation_format = translation_format;
            self.cached_show_line_numbers = show_line_numbers;
            self.rebuild_cache();
        }
        let mut final_text = self.cached_text.clone();
        if self.pending.len() > 0 {
            let line_num = if show_line_numbers {
                Some(self.total_lines_received + 1)
            } else {
                None
            };
            let tail = render_entry(
                &now,
                Direction::Rx,
                self.pending.as_slice(),
                line_num,
                show_timestamps,
                enable_translation,
                translation_format,
            );
            final_text.append(tail.as_str());
        }
        proof {
            assert(self.first_line_no() == first_line(old(self)@));
        }
        final_text
    }
}

/// Each line of a split holds at least one of the new bytes.
pub proof fn lemma_split_lines_count(pending: Seq<u8>, bytes: Seq<u8>)
    ensures
        split_lines(pending, bytes).0.len() <= bytes.len(),
    decreases bytes.len(),
{
    if bytes.len() > 0 {
        lemma_split_lines_count(pending, bytes.drop_last());
    }
}

/// The buffer after `push_bytes` of a non-empty slice.
pub open spec fn push_model(
    m: TerminalModel,
    bytes: Seq<u8>,
    dir: Direction,
    ts: Timestamp,
) -> TerminalModel {
    let r = lines_after_push(m.pending, bytes);
    TerminalModel {
        entries: apply_limit(m.entries + as_entries(r.0, ts, dir), m.max_entries),
        pending: r.1,
        total_lines: m.total_lines + r.0.len(),
        version: m.version + 1,
        ..m
    }
}

} // verus!

verus! {

/// The concatenation of a sequence of lines.
pub open spec fn flatten(ls: Seq<Seq<u8>>) -> Seq<u8>
    decreases ls.len(),
{
    if ls.len() == 0 {
        seq![]
    } else {
        flatten(ls.drop_last()) + ls.last()
    }
}

/// No received byte is lost or reordered: the lines produced by a push,
/// followed by what stays pending, are exactly the old pending bytes
/// followed by the new ones.
pub proof fn lemma_split_conserves_bytes(pending: Seq<u8>, bytes: Seq<u8>)
    ensures
        flatten(split_lines(pending, bytes).0) + split_lines(pending, bytes).1 == pending + bytes,
        flatten(lines_after_push(pending, bytes).0) + lines_after_push(pending, bytes).1
            == pending + bytes,
    decreases bytes.len(),
{
    let r = split_lines(pending, bytes);
    if bytes.len() == 0 {
        assert(flatten(r.0) =~= Seq::<u8>::empty());
        assert(pending + bytes =~= pending);
        assert(Seq::<u8>::empty() + pending =~= pending);
    } else {
        let p = bytes.drop_last();
        lemma_split_conserves_bytes(pending, p);
        let prev = split_lines(pending, p);
        let cur = prev.1.push(bytes.last());
        assert(pending + bytes =~= (pending + p).push(bytes.last()));
        if bytes.last() == 10 {
            assert(prev.0.push(cur).drop_last() =~= prev.0);
            assert(flatten(r.0) =~= flatten(prev.0) + cur);
            assert(flatten(r.0) + r.1 =~= pending + bytes);
        } else {
            assert(flatten(r.0) + r.1 =~= pending + bytes);
        }
    }
    if r.1.len() >= flush_threshold() {
        assert(r.0.push(r.1).drop_last() =~= r.0);
        assert(flatten(r.0.push(r.1)) + Seq::<u8>::empty() =~= flatten(r.0) + r.1);
    }
}

pub open spec fn no_line_feed(d: Seq<u8>) -> bool {
    forall|k: int| 0 <= k < d.len() ==> #[trigger] d[k] != 10
}

/// A line ends at its only line feed.
pub open spec fn is_complete_line(d: Seq<u8>) -> bool {
    d.len() > 0 && d.last() == 10 && no_line_feed(d.drop_last())
}

/// Lines are cut exactly at line feeds: when nothing pending holds a line
/// feed, every completed line ends with its single line feed, and what stays
/// pending holds none.
pub proof fn lemma_split_line_shape(pending: Seq<u8>, bytes: Seq<u8>)
    requires
        no_line_feed(pending),
    ensures
        forall|i: int|
            0 <= i < split_lines(pending, bytes).0.len() ==> is_complete_line(
                #[trigger] split_lines(pending, bytes).0[i],
            ),
        no_line_feed(split_lines(pending, bytes).1),
    decreases bytes.len(),
{
    if bytes.len() > 0 {
        let p = bytes.drop_last();
        lemma_split_line_shape(pending, p);
        let prev = split_lines(pending, p);
        let cur = prev.1.push(bytes.last());
        let r = split_lines(pending, bytes);
        assert(cur.drop_last() =~= prev.1);
        assert forall|i: int| 0 <= i < r.0.len() implies is_complete_line(#[trigger] r.0[i]) by {
            if i < prev.0.len() {
                assert(r.0[i] == prev.0[i]);
            }
        }
        if bytes.last() != 10 {
            assert forall|k: int| 0 <= k < cur.len() implies #[trigger] cur[k] != 10 by {
                if k < prev.1.len() {
                    assert(cur[k] == prev.1[k]);
                }
            }
        }
    }
}

/// Pending bytes never hold a line feed, and a push leaves fewer than 4096
/// of them.
pub proof fn lemma_pending_after_push(pending: Seq<u8>, bytes: Seq<u8>)
    requires
        no_line_feed(pending),
    ensures
        no_line_feed(lines_after_push(pending, bytes).1),
        lines_after_push(pending, bytes).1.len() < flush_threshold(),
{
    lemma_split_line_shape(pending, bytes);
}

impl TerminalBuffer {
    /// A well-formed buffer keeps no more lines than its limit allows,
    /// fewer than 4096 pending bytes, and no more lines than it has numbered.
    pub proof fn lemma_bounded(&self)
        requires
            self.wf(),
        ensures
            within_limit(self@.entries.len(), self@.max_entries),
            self@.pending.len() < flush_threshold(),
            self@.entries.len() <= self@.total_lines,
            no_line_feed(self@.pending),
    {
    }
}

/// The kept lines are the newest ones: truncation keeps a suffix of exactly
/// `min(len, cap)` lines.
pub proof fn lemma_keep_last_is_newest(es: Seq<EntryModel>, cap: nat)
    ensures
        keep_last(es, cap).len() == if es.len() > cap {
            cap
        } else {
            es.len()
        },
        forall|i: int|
            0 <= i < keep_last(es, cap).len() ==> #[trigger] keep_last(es, cap)[i] == es[es.len()
                - keep_last(es, cap).len() + i],
{
}

/// With the limit 0 ("Unlimited Lines") a push drops no line: the new lines
/// follow all the old ones.
pub proof fn lemma_unlimited_drops_nothing(m: TerminalModel, bytes: Seq<u8>, dir: Direction, ts: Timestamp)
    requires
        m.max_entries == 0,
    ensures
        push_model(m, bytes, dir, ts).entries == m.entries + as_entries(
            lines_after_push(m.pending, bytes).0,
            ts,
            dir,
        ),
        push_model(m, bytes, dir, ts).entries.len() >= m.entries.len(),
{
}

/// Splitting `a` then `c` gives the lines of splitting `a + c` at once.
pub proof fn lemma_split_lines_concat(p: Seq<u8>, a: Seq<u8>, c: Seq<u8>)
    ensures
        split_lines(p, a + c) == (
            split_lines(p, a).0 + split_lines(split_lines(p, a).1, c).0,
            split_lines(split_lines(p, a).1, c).1,
        ),
    decreases c.len(),
{
    let r1 = split_lines(p, a);
    if c.len() == 0 {
        assert(a + c =~= a);
        assert(r1.0 + Seq::<Seq<u8>>::empty() =~= r1.0);
    } else {
        let c0 = c.drop_last();
        lemma_split_lines_concat(p, a, c0);
        assert((a + c).drop_last() =~= a + c0);
        assert((a + c).last() == c.last());
        let prev2 = split_lines(r1.1, c0);
        let cur2 = prev2.1.push(c.last());
        assert((r1.0 + prev2.0).push(cur2) =~= r1.0 + prev2.0.push(cur2));
    }
}

proof fn lemma_keep_last_concat(x: Seq<EntryModel>, z: Seq<EntryModel>, n: nat)
    ensures
        keep_last(keep_last(x, n) + z, n) == keep_last(x + z, n),
{
    let k = keep_last(x, n);
    let lhs = keep_last(k + z, n);
    let rhs = keep_last(x + z, n);
    assert(lhs.len() == rhs.len());
    assert forall|i: int| 0 <= i < lhs.len() implies lhs[i] == rhs[i] by {
        let off_l = (k + z).len() - lhs.len();
        let off_r = (x + z).len() - rhs.len();
        let j = i + off_r;
        if j < x.len() {
            assert(rhs[i] == x[j]);
            assert(lhs[i] == (k + z)[i + off_l]);
            assert(i + off_l < k.len());
            assert(k[i + off_l] == x[x.len() - k.len() + i + off_l]);
        } else {
            assert(rhs[i] == z[j - x.len()]);
        }
    }
    assert(lhs =~= rhs);
}

/// Bytes pushed in two pieces make the same lines, the same pending bytes
/// and the same numbering as the same bytes pushed at once, as long as no
/// pending run reaches the flush size on the way.
pub proof fn lemma_push_chunking(
    m: TerminalModel,
    a: Seq<u8>,
    c: Seq<u8>,
    dir: Direction,
    ts: Timestamp,
)
    requires
        split_lines(m.pending, a).1.len() < flush_threshold(),
        split_lines(m.pending, a + c).1.len() < flush_threshold(),
    ensures
        push_model(push_model(m, a, dir, ts), c, dir, ts).entries == push_model(
            m,
            a + c,
            dir,
            ts,
        ).entries,
        push_model(push_model(m, a, dir, ts), c, dir, ts).pending == push_model(
            m,
            a + c,
            dir,
            ts,
        ).pending,
        push_model(push_model(m, a, dir, ts), c, dir, ts).total_lines == push_model(
            m,
            a + c,
            dir,
            ts,
        ).total_lines,
{
    let r1 = split_lines(m.pending, a);
    let r2 = split_lines(r1.1, c);
    lemma_split_lines_concat(m.pending, a, c);
    let e1 = as_entries(r1.0, ts, dir);
    let e2 = as_entries(r2.0, ts, dir);
    assert(as_entries(r1.0 + r2.0, ts, dir) =~= e1 + e2);
    assert(m.entries + e1 + e2 =~= m.entries + (e1 + e2));
    if m.max_entries > 0 {
        lemma_keep_last_concat(m.entries + e1, e2, m.max_entries);
    }
}

/// What is exported does not depend on how the cache was last rendered.
pub proof fn lemma_export_ignores_cache(
    m: TerminalModel,
    cs: RenderSettings,
    s: RenderSettings,
    now: Timestamp,
)
    ensures
        export_text(TerminalModel { cache_settings: cs, ..m }, s, now) == export_text(m, s, now),
{
}

/// After `clear`, exporting yields the empty text.
pub proof fn lemma_export_after_clear(m: TerminalModel, s: RenderSettings, now: Timestamp)
    ensures
        export_text(TerminalModel { entries: seq![], pending: seq![], total_lines: 0, ..m }, s, now)
            == Seq::<char>::empty(),
{
}

} // verus!

verus! {

/// Bytes without a line feed only extend what is pending.
proof fn lemma_split_without_line_feed(p: Seq<u8>, b: Seq<u8>)
    requires
        no_line_feed(b),
    ensures
        split_lines(p, b) == (Seq::<Seq<u8>>::empty(), p + b),
    decreases b.len(),
{
    if b.len() == 0 {
        assert(p + b =~= p);
    } else {
        let q = b.drop_last();
        assert(no_line_feed(q)) by {
            assert forall|k: int| 0 <= k < q.len() implies #[trigger] q[k] != 10 by {
                assert(q[k] == b[k]);
            }
        }
        lemma_split_without_line_feed(p, q);
        assert(b.last() == b[b.len() - 1]);
        assert((p + q).push(b.last()) =~= p + b);
    }
}

/// A complete line pushed onto nothing pending becomes exactly one entry.
pub proof fn lemma_push_complete_line(line: Seq<u8>)
    requires
        is_complete_line(line),
    ensures
        lines_after_push(seq![], line) == (seq![line], Seq::<u8>::empty()),
{
    let e = Seq::<u8>::empty();
    lemma_split_without_line_feed(e, line.drop_last());
    assert(e + line.drop_last() =~= line.drop_last());
    assert(line.drop_last().push(line.last()) =~= line);
    assert(Seq::<Seq<u8>>::empty().push(line) =~= seq![line]);
}

/// The buffer after pushing the same complete line `n` times.
pub open spec fn push_line_n(
    m: TerminalModel,
    line: Seq<u8>,
    n: nat,
    dir: Direction,
    ts: Timestamp,
) -> TerminalModel
    decreases n,
{
    if n == 0 {
        m
    } else {
        push_model(push_line_n(m, line, (n - 1) as nat, dir, ts), line, dir, ts)
    }
}

/// With the limit 0 ("Unlimited Lines") and nothing pending, pushing a
/// complete line `n` times keeps every old line and adds exactly `n`, each
/// holding that line; nothing is left pending.
pub proof fn lemma_unlimited_keeps_n_lines(
    m: TerminalModel,
    line: Seq<u8>,
    n: nat,
    dir: Direction,
    ts: Timestamp,
)
    requires
        m.max_entries == 0,
        m.pending.len() == 0,
        is_complete_line(line),
    ensures
        push_line_n(m, line, n, dir, ts).entries.len() == m.entries.len() + n,
        push_line_n(m, line, n, dir, ts).entries.take(m.entries.len() as int) == m.entries,
        forall|i: int|
            m.entries.len() <= i < m.entries.len() + n ==> (#[trigger] push_line_n(
                m,
                line,
                n,
                dir,
                ts,
            ).entries[i]) == (EntryModel { timestamp: ts, direction: dir, data: line }),
        push_line_n(m, line, n, dir, ts).pending.len() == 0,
        push_line_n(m, line, n, dir, ts).max_entries == 0,
        push_line_n(m, line, n, dir, ts).total_lines == m.total_lines + n,
    decreases n,
{
    if n > 0 {
        let prev = push_line_n(m, line, (n - 1) as nat, dir, ts);
        lemma_unlimited_keeps_n_lines(m, line, (n - 1) as nat, dir, ts);
        assert(prev.pending =~= Seq::<u8>::empty());
        lemma_push_complete_line(line);
        let new_entry = EntryModel { timestamp: ts, direction: dir, data: line };
        assert(as_entries(seq![line], ts, dir) =~= seq![new_entry]);
        let now = push_line_n(m, line, n, dir, ts);
        assert(now.entries =~= prev.entries + seq![new_entry]);
        assert(now.entries.take(m.entries.len() as int) =~= prev.entries.take(
            m.entries.len() as int,
        ));
    }
}

} // verus!

verus! {

/// The line limit keeps the newest lines: with a limit `n > 0` exactly the
/// last `min(len, n)` lines stay, in order; with 0 all of them.
pub proof fn lemma_apply_limit_rule(es: Seq<EntryModel>, n: nat)
    ensures
        n == 0 ==> apply_limit(es, n) == es,
        n > 0 ==> apply_limit(es, n).len() == if es.len() > n {
            n
        } else {
            es.len()
        },
        forall|i: int|
            0 <= i < apply_limit(es, n).len() ==> #[trigger] apply_limit(es, n)[i] == es[es.len()
                - apply_limit(es, n).len() + i],
{
}

/// Kept lines are numbered consecutively and the newest carries the number
/// of lines received so far.
pub proof fn lemma_line_numbers(m: TerminalModel)
    requires
        m.entries.len() <= m.total_lines,
    ensures
        m.entries.len() > 0 ==> first_line(m) + m.entries.len() - 1 == m.total_lines,
        first_line(m) >= 1,
{
}

} // verus!
