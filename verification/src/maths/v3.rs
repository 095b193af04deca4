//! The time shown on the clock, and the time of day a clock reading gives.
use vstd::prelude::*;

use crate::output::{lemma_none_written, lemma_write_at, wrote_in_turn, Output};
use crate::text::lemma_encode_utf8_concat;
use vstd::string::{StringExecFns, StringSliceAdditionalSpecFns};
use vstd::utf8::encode_utf8;

verus! {

/// A time of day.
pub struct Time {
    pub hours: u32,
    pub minutes: u32,
    pub seconds: u32,
}

/// The time of day, in UTC, `seconds_since_epoch` seconds after midnight
/// of the first of January 1970.
pub fn time_of_day(seconds_since_epoch: u64) -> (r: Time)
    ensures
        r.hours == (seconds_since_epoch / 3600) % 24,
        r.minutes == (seconds_since_epoch / 60) % 60,
        r.seconds == seconds_since_epoch % 60,
{
    let hours = ((seconds_since_epoch / 3600) % 24) as u32;
    let minutes = ((seconds_since_epoch / 60) % 60) as u32;
    let seconds = (seconds_since_epoch % 60) as u32;
    Time { hours, minutes, seconds }
}

/// How the clock's SVG document opens.
pub const SVG_START: &'static str = r#"<?xml version="1.0" encoding="UTF-8" standalone="no"?>
<svg xmlns="http://www.w3.org/2000/svg"
     width="100%"
     height="100%"
     viewBox="0 0 300 300"
     version="2.0">"#;

/// The clock's rim.
pub const BEZEL: &'static str =
    r#"<circle cx="150" cy="150" r="100" style="fill:#fff;stroke:#000;stroke-width:5px;"/>"#;

/// How the clock's SVG document closes.
pub const SVG_END: &'static str = "</svg>";

/// `text` as a line of its own.
pub open spec fn line_of(text: Seq<char>) -> Seq<char> {
    text + "\n"@
}

/// The clock face's document around its three hands: the opening, the
/// rim, the hour, minute and second hands, and the close, each a line.
pub open spec fn clock_text(hour: Seq<char>, minute: Seq<char>, second: Seq<char>) -> Seq<char> {
    line_of(SVG_START@) + line_of(BEZEL@) + line_of(hour) + line_of(minute) + line_of(second)
        + line_of(SVG_END@)
}

/// The writes the clock face is made of, in turn: one for each of its
/// lines.
pub open spec fn clock_writes(hour: Seq<char>, minute: Seq<char>, second: Seq<char>) -> Seq<
    Seq<char>,
> {
    seq![
        line_of(SVG_START@),
        line_of(BEZEL@),
        line_of(hour),
        line_of(minute),
        line_of(second),
        line_of(SVG_END@),
    ]
}

/// Writes `text` and a line break in one write.
fn write_line<W: Output>(writer: &mut W, text: &str) -> (r: std::io::Result<()>)
    ensures
        W::writes_all() ==> r is Ok && final(writer).written() == old(writer).written()
            + encode_utf8(line_of(text@)),
        old(writer).can_write(line_of(text@), r, *final(writer)),
{
    let mut line = text.to_string();
    line.append("\n");
    let l = line.as_str();
    assert(l@ == line_of(text@));
    assert(l.spec_bytes() == encode_utf8(line_of(text@)));
    writer.write_text(l)
}

/// Bytes written after `done` text, then a `line` more, are those of the
/// two texts together.
proof fn lemma_written_after(start: Seq<u8>, done: Seq<char>, line: Seq<char>, now: Seq<u8>)
    requires
        now == (start + encode_utf8(done)) + encode_utf8(line),
    ensures
        now == start + encode_utf8(done + line),
{
    lemma_encode_utf8_concat(done, line);
    assert(now =~= start + encode_utf8(done + line));
}

/// Writes the clock face with the three hands given as their SVG lines,
/// each on a line of its own, in the order hour, minute, second; the first
/// failure to write ends it.
pub fn write_clock<W: Output>(writer: &mut W, hour: &str, minute: &str, second: &str) -> (r:
    std::io::Result<()>)
    ensures
        W::writes_all() ==> r is Ok && final(writer).written() == old(writer).written()
            + encode_utf8(clock_text(hour@, minute@, second@)),
        wrote_in_turn(*old(writer), clock_writes(hour@, minute@, second@), r, *final(writer)),
{
    let ghost start = old(writer).written();
    let ghost first = *writer;
    let ghost all = clock_writes(hour@, minute@, second@);
    let ghost mut before = *writer;
    let ghost mut done = line_of(SVG_START@);
    proof {
        lemma_none_written(first, all);
    }
    let w = write_line(writer, SVG_START);
    proof {
        lemma_write_at(first, all, 0, before, w, *writer);
    }
    if w.is_err() {
        return w;
    }
    proof {
        if W::writes_all() {
            assert(encode_utf8(Seq::<char>::empty()) =~= Seq::<u8>::empty());
            lemma_written_after(start, Seq::empty(), done, writer.written());
            assert(Seq::<char>::empty() + done =~= done);
        }
        before = *writer;
    }
    let w = write_line(writer, BEZEL);
    proof {
        lemma_write_at(first, all, 1, before, w, *writer);
    }
    if w.is_err() {
        return w;
    }
    proof {
        if W::writes_all() {
            lemma_written_after(start, done, line_of(BEZEL@), writer.written());
        }
        done = done + line_of(BEZEL@);
        before = *writer;
    }
    let w = write_line(writer, hour);
    proof {
        lemma_write_at(first, all, 2, before, w, *writer);
    }
    if w.is_err() {
        return w;
    }
    proof {
        if W::writes_all() {
            lemma_written_after(start, done, line_of(hour@), writer.written());
        }
        done = done + line_of(hour@);
        before = *writer;
    }
    let w = write_line(writer, minute);
    proof {
        lemma_write_at(first, all, 3, before, w, *writer);
    }
    if w.is_err() {
        return w;
    }
    proof {
        if W::writes_all() {
            lemma_written_after(start, done, line_of(minute@), writer.written());
        }
        done = done + line_of(minute@);
        before = *writer;
    }
    let w = write_line(writer, second);
    proof {
        lemma_write_at(first, all, 4, before, w, *writer);
    }
    if w.is_err() {
        return w;
    }
    proof {
        if W::writes_all() {
            lemma_written_after(start, done, line_of(second@), writer.written());
        }
        done = done + line_of(second@);
        before = *writer;
    }
    let r = write_line(writer, SVG_END);
    proof {
        lemma_write_at(first, all, 5, before, r, *writer);
        assert(all.take(6) =~= all);
        if W::writes_all() {
            lemma_written_after(start, done, line_of(SVG_END@), writer.written());
        }
        done = done + line_of(SVG_END@);
        assert(done == clock_text(hour@, minute@, second@));
    }
    r
}
} // verus!
