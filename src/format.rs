use vstd::prelude::*;
use crate::config::LoggerConfig;

verus! {

/// The separator between the fields of a persisted line.
pub const FIELD_SEP: char = '|';

/// The severity of a message.
#[derive(PartialEq, Eq, Structural, Clone, Copy, Debug)]
pub enum LogLevel {
    Debug,
    Info,
    Warning,
    Error,
}

/// The label that stands for a level, on the console and in the file.
pub open spec fn label_of(level: LogLevel) -> Seq<char> {
    match level {
        LogLevel::Debug => seq!['调', '试'],
        LogLevel::Info => seq!['信', '息'],
        LogLevel::Warning => seq!['警', '告'],
        LogLevel::Error => seq!['错', '误'],
    }
}

/// The hex color of a level's label on a colored console.
pub open spec fn color_hex_of(level: LogLevel) -> Seq<char> {
    match level {
        LogLevel::Debug => seq!['#', '8', 'a', '8', 'a', '8', 'a'],
        LogLevel::Info => seq!['#', '4', 'c', 'a', 'f', '5', '0'],
        LogLevel::Warning => seq!['#', 'f', 'f', 'c', '1', '0', '7'],
        LogLevel::Error => seq!['#', 'f', '4', '4', '3', '3', '6'],
    }
}

/// Debug messages are emitted only when the configuration asks for them; all
/// other levels always are.
pub open spec fn emits(debug_enabled: bool, level: LogLevel) -> bool {
    level != LogLevel::Debug || debug_enabled
}

/// `|<time>|<label>|<message>`: the line that the file receives.
pub open spec fn persisted_text(time: Seq<char>, level: LogLevel, message: Seq<char>) -> Seq<char> {
    seq![FIELD_SEP] + time + seq![FIELD_SEP] + label_of(level) + seq![FIELD_SEP] + message
}

/// The escape sequence that ends a colored label.
pub open spec fn color_reset() -> Seq<char> {
    seq!['\x1b', '[', '0', 'm']
}

/// The console line: `<time> [<label>] <message>`, or, colored,
/// `<time> <color>[<label>] <message><reset>`.
pub open spec fn display_text(
    time: Seq<char>,
    level: LogLevel,
    message: Seq<char>,
    color: Option<Seq<char>>,
) -> Seq<char> {
    match color {
        None => time + seq![' ', '['] + label_of(level) + seq![']', ' '] + message,
        Some(code) => time + seq![' '] + code + seq!['['] + label_of(level) + seq![']', ' '] + message
            + color_reset(),
    }
}

/// The label of a level.
pub fn level_label(level: LogLevel) -> (r: &'static str)
    ensures
        r@ == label_of(level),
{
    match level {
        LogLevel::Debug => {
            proof {
                reveal_strlit("调试");
            }
            "调试"
        },
        LogLevel::Info => {
            proof {
                reveal_strlit("信息");
            }
            "信息"
        },
        LogLevel::Warning => {
            proof {
                reveal_strlit("警告");
            }
            "警告"
        },
        LogLevel::Error => {
            proof {
                reveal_strlit("错误");
            }
            "错误"
        },
    }
}

/// The hex color of a level, to be turned into an escape sequence by the
/// color cache.
pub fn level_color(level: LogLevel) -> (r: &'static str)
    ensures
        r@ == color_hex_of(level),
{
    proof {
        reveal_strlit("#8a8a8a");
        reveal_strlit("#4caf50");
        reveal_strlit("#ffc107");
        reveal_strlit("#f44336");
    }
    match level {
        LogLevel::Debug => "#8a8a8a",
        LogLevel::Info => "#4caf50",
        LogLevel::Warning => "#ffc107",
        LogLevel::Error => "#f44336",
    }
}

/// Whether a message of `level` is emitted at all (console and file).
pub fn should_emit(config: &LoggerConfig, level: LogLevel) -> (r: bool)
    ensures
        r == emits(config.debug, level),
{
    match level {
        LogLevel::Debug => config.debug,
        _ => true,
    }
}

/// The line that the file receives for a message.
pub fn persisted_line(time: &str, level: LogLevel, message: &str) -> (r: String)
    ensures
        r@ == persisted_text(time@, level, message@),
{
    let sep = "|";
    proof {
        reveal_strlit("|");
    }
    let mut out = String::new();
    out.append(sep);
    out.append(time);
    out.append(sep);
    out.append(level_label(level));
    out.append(sep);
    out.append(message);
    proof {
        assert(out@ =~= persisted_text(time@, level, message@));
    }
    out
}

/// The line that the console receives for a message; `color` is the escape
/// sequence of the level's color when coloring is on.
pub fn display_line(time: &str, level: LogLevel, message: &str, color: Option<&str>) -> (r: String)
    ensures
        r@ == display_text(time@, level, message@, match color {
            None => None,
            Some(c) => Some(c@),
        }),
{
    let mut out = String::from_str(time);
    match color {
        None => {
            let open = " [";
            let close = "] ";
            proof {
                reveal_strlit(" [");
                reveal_strlit("] ");
            }
            out.append(open);
            out.append(level_label(level));
            out.append(close);
            out.append(message);
            proof {
                assert(out@ =~= display_text(time@, level, message@, None));
            }
        },
        Some(code) => {
            let space = " ";
            let open = "[";
            let close = "] ";
            let reset = "\x1b[0m";
            proof {
                reveal_strlit(" ");
                reveal_strlit("[");
                reveal_strlit("] ");
                reveal_strlit("\x1b[0m");
            }
            out.append(space);
            out.append(code);
            out.append(open);
            out.append(level_label(level));
            out.append(close);
            out.append(message);
            out.append(reset);
            proof {
                assert(out@ =~= display_text(time@, level, message@, Some(code@)));
            }
        },
    }
    out
}

/// What one logging call produces: the console line and, when lines are
/// persisted, the line for the writer's queue.
pub struct Rendered {
    pub display: String,
    pub persisted: Option<String>,
}

/// Renders one logging call: `None` when the level is gated off; else the
/// console line, and the persisted line exactly when `record` is set.
/// `color` is the escape sequence of the level's color, used when the
/// configuration colors the console.
pub fn render(config: &LoggerConfig, level: LogLevel, time: &str, message: &str, color: &str) -> (r:
    Option<Rendered>)
    ensures
        r is Some <==> emits(config.debug, level),
        r is Some ==> r->0.display@ == display_text(
            time@,
            level,
            message@,
            if config.color {
                Some(color@)
            } else {
                None
            },
        ),
        r is Some ==> (r->0.persisted is Some <==> config.record),
        r is Some && config.record ==> r->0.persisted->0@ == persisted_text(time@, level, message@),
{
    if !should_emit(config, level) {
        return None;
    }
    let display = if config.color {
        display_line(time, level, message, Some(color))
    } else {
        display_line(time, level, message, None)
    };
    let persisted = if config.record {
        Some(persisted_line(time, level, message))
    } else {
        None
    };
    Some(Rendered { display, persisted })
}

/// The pieces of `s` between occurrences of `sep`; always at least one.
pub open spec fn split_on(s: Seq<char>, sep: char) -> Seq<Seq<char>>
    decreases s.len(),
{
    if s.len() == 0 {
        seq![Seq::empty()]
    } else {
        let front = split_on(s.drop_last(), sep);
        if s.last() == sep {
            front.push(Seq::empty())
        } else {
            front.update(front.len() - 1, front.last().push(s.last()))
        }
    }
}

pub proof fn lemma_split_nonempty(s: Seq<char>, sep: char)
    ensures
        split_on(s, sep).len() >= 1,
    decreases s.len(),
{
    if s.len() > 0 {
        lemma_split_nonempty(s.drop_last(), sep);
    }
}

/// Text free of `sep` after `a` joins the last piece of `a`.
pub proof fn lemma_split_append_plain(a: Seq<char>, b: Seq<char>, sep: char)
    requires
        !b.contains(sep),
    ensures
        split_on(a, sep).len() >= 1,
        split_on(a + b, sep) == split_on(a, sep).update(
            split_on(a, sep).len() - 1,
            split_on(a, sep).last() + b,
        ),
    decreases b.len(),
{
    lemma_split_nonempty(a, sep);
    let f = split_on(a, sep);
    if b.len() == 0 {
        assert(a + b =~= a);
        assert(f.last() + b =~= f.last());
        assert(f.update(f.len() - 1, f.last()) =~= f);
    } else {
        let c = b.drop_last();
        assert(!c.contains(sep)) by {
            if c.contains(sep) {
                let i = choose|i: int| 0 <= i < c.len() && c[i] == sep;
                assert(b[i] == sep);
            }
        }
        assert(b.last() != sep) by {
            assert(b.contains(b[b.len() - 1]));
        }
        lemma_split_append_plain(a, c, sep);
        assert((a + b).drop_last() =~= a + c);
        lemma_split_nonempty(a + c, sep);
        assert((f.last() + c).push(b.last()) =~= f.last() + b);
        assert(split_on(a + b, sep) =~= f.update(f.len() - 1, f.last() + b));
    }
}

/// A separator after `a` starts a new, empty piece.
pub proof fn lemma_split_append_sep(a: Seq<char>, sep: char)
    ensures
        split_on(a.push(sep), sep) == split_on(a, sep).push(Seq::<char>::empty()),
{
    assert(a.push(sep).drop_last() =~= a);
}

/// A persisted line splits on its separator into an empty piece before the
/// leading separator and then exactly three fields: the timestamp, the level
/// label (never empty) and the message, as long as neither the timestamp nor
/// the message holds the separator.
pub proof fn lemma_persisted_fields(time: Seq<char>, level: LogLevel, message: Seq<char>)
    requires
        !time.contains(FIELD_SEP),
        !message.contains(FIELD_SEP),
    ensures
        split_on(persisted_text(time, level, message), FIELD_SEP) == seq![
            Seq::<char>::empty(),
            time,
            label_of(level),
            message,
        ],
        label_of(level).len() > 0,
{
    let sep = FIELD_SEP;
    let lab = label_of(level);
    let e = Seq::<char>::empty();
    assert(!lab.contains(sep)) by {
        if lab.contains(sep) {
            let i = choose|i: int| 0 <= i < lab.len() && lab[i] == sep;
        }
    }
    assert(split_on(e, sep) =~= seq![e]);
    let s1 = e.push(sep);
    lemma_split_append_sep(e, sep);
    assert(split_on(s1, sep) =~= seq![e, e]);
    let s2 = s1 + time;
    lemma_split_append_plain(s1, time, sep);
    assert(split_on(s2, sep) =~= seq![e, time]);
    let s3 = s2.push(sep);
    lemma_split_append_sep(s2, sep);
    let s4 = s3 + lab;
    lemma_split_append_plain(s3, lab, sep);
    assert(split_on(s4, sep) =~= seq![e, time, lab]);
    let s5 = s4.push(sep);
    lemma_split_append_sep(s4, sep);
    let s6 = s5 + message;
    lemma_split_append_plain(s5, message, sep);
    assert(split_on(s6, sep) =~= seq![e, time, lab, message]);
    assert(persisted_text(time, level, message) =~= s6);
}

} // verus!
