//! The syntax validator: a fast linter over the raw lines that flags
//! sigil runs longer than six, level jumps of more than one, and headers
//! without a well-formed type token.  It builds no tree.

use vstd::prelude::*;
use crate::text::{
    chars_of, dec_str, has_prefix, has_prefix_str, is_letter, is_letter_exec, lines_spec,
    push_usize, run_of, run_of_exec, split_lines, trim_of, trim_spec, ws_end, ws_end_exec,
};

verus! {

/// The warning for a sigil run longer than six.
pub open spec fn warn_too_many(n: nat) -> Seq<char> {
    "Line "@ + dec_str(n) + ": Too many # symbols (max 6)"@
}

/// The warning for a header jumping more than one level deeper.
pub open spec fn warn_nesting(n: nat, from: nat, to: nat) -> Seq<char> {
    "Line "@ + dec_str(n) + ": Invalid nesting - jumped from level "@ + dec_str(from) + " to "@
        + dec_str(to)
}

/// The warning for a header with nothing after its sigils.
pub open spec fn warn_missing(n: nat) -> Seq<char> {
    "Line "@ + dec_str(n) + ": Missing block type after #"@
}

/// The warning for a type token that does not start with a letter.
pub open spec fn warn_letter(n: nat) -> Seq<char> {
    "Line "@ + dec_str(n) + ": Block type must start with letter"@
}

/// The warnings one line contributes, given the previously seen level.
pub open spec fn validate_line(cl: nat, line: Seq<char>, n: nat) -> Seq<Seq<char>> {
    let t = trim_spec(line);
    if t.len() == 0 || has_prefix(t, "//"@) {
        Seq::empty()
    } else if t[0] == '#' {
        let level = run_of(t, 0, '#');
        (if level > 6 {
            seq![warn_too_many(n)]
        } else {
            Seq::<Seq<char>>::empty()
        }) + (if level > cl + 1 {
            seq![warn_nesting(n, cl, level as nat)]
        } else {
            Seq::<Seq<char>>::empty()
        }) + ({
            let a = ws_end(t, level);
            if a >= t.len() {
                seq![warn_missing(n)]
            } else if !is_letter(t[a]) {
                seq![warn_letter(n)]
            } else {
                Seq::<Seq<char>>::empty()
            }
        })
    } else {
        Seq::empty()
    }
}

/// The level a line leaves behind: a header line sets it, other lines keep
/// it.
pub open spec fn validate_level(cl: nat, line: Seq<char>) -> nat {
    let t = trim_spec(line);
    if t.len() == 0 || has_prefix(t, "//"@) {
        cl
    } else if t[0] == '#' {
        run_of(t, 0, '#') as nat
    } else {
        cl
    }
}

/// The warnings of all lines from index `i` on.
pub open spec fn validate_from(cl: nat, lines: Seq<Seq<char>>, i: int) -> Seq<Seq<char>>
    decreases lines.len() - i,
{
    if i < 0 || i >= lines.len() {
        Seq::empty()
    } else {
        validate_line(cl, lines[i], (i + 1) as nat) + validate_from(
            validate_level(cl, lines[i]),
            lines,
            i + 1,
        )
    }
}

/// All warnings of a text.
pub open spec fn validate_spec(text: Seq<char>) -> Seq<Seq<char>> {
    validate_from(0nat, lines_spec(text), 0)
}

/// The views of the warning strings.
pub open spec fn msgs_of(s: Seq<String>) -> Seq<Seq<char>> {
    s.map_values(|x: String| x@)
}

/// Validate Blox syntax without building a tree: the ordered warnings over
/// all lines.  Never fails.
#[verifier::loop_isolation(false)]
pub fn validate_blox_syntax(content: String) -> (r: Result<Vec<String>, String>)
    ensures
        match r {
            Ok(w) => msgs_of(w@) == validate_spec(content@),
            Err(_) => false,
        },
{
    let cv = chars_of(content.as_str());
    let lines = split_lines(cv.as_slice());
    let ghost ls = crate::text::seqs_of(lines@);
    let mut warnings: Vec<String> = Vec::new();
    let mut current_level: usize = 0;
    let mut i: usize = 0;
    proof {
        assert(msgs_of(warnings@) =~= Seq::<Seq<char>>::empty());
        assert(validate_spec(content@) =~= msgs_of(warnings@) + validate_from(0nat, ls, 0));
    }
    while i < lines.len()
        invariant
            i <= lines@.len(),
            validate_spec(content@) == msgs_of(warnings@) + validate_from(
                current_level as nat,
                ls,
                i as int,
            ),
        decreases lines@.len() - i,
    {
        let line = lines[i].as_slice();
        let line_number = i + 1;
        let t = trim_of(line);
        let tv = t.as_slice();
        let ghost tvs = trim_spec(ls[i as int]);
        proof {
            assert(ls[i as int] == lines@[i as int]@);
            assert(tv@ == tvs);
        }
        let skip = t.len() == 0 || has_prefix_str(tv, "//");
        if !skip && tv[0] == '#' {
            let ghost w0 = msgs_of(warnings@);
            let level = run_of_exec(tv, 0, '#');
            if level > 6 {
                let mut msg = String::new();
                msg.append("Line ");
                push_usize(&mut msg, line_number);
                msg.append(": Too many # symbols (max 6)");
                proof {
                    assert(msg@ =~= warn_too_many(line_number as nat));
                }
                let ghost prev = msgs_of(warnings@);
                warnings.push(msg);
                proof {
                    assert(msgs_of(warnings@) =~= prev.push(warn_too_many(line_number as nat)));
                }
            }
            if level >= 1 && level - 1 > current_level {
                let mut msg = String::new();
                msg.append("Line ");
                push_usize(&mut msg, line_number);
                msg.append(": Invalid nesting - jumped from level ");
                push_usize(&mut msg, current_level);
                msg.append(" to ");
                push_usize(&mut msg, level);
                proof {
                    assert(msg@ =~= warn_nesting(
                        line_number as nat,
                        current_level as nat,
                        level as nat,
                    ));
                }
                let ghost prev = msgs_of(warnings@);
                warnings.push(msg);
                proof {
                    assert(msgs_of(warnings@) =~= prev.push(warn_nesting(
                        line_number as nat,
                        current_level as nat,
                        level as nat,
                    )));
                }
            }
            let a = ws_end_exec(tv, level);
            if a >= t.len() {
                let mut msg = String::new();
                msg.append("Line ");
                push_usize(&mut msg, line_number);
                msg.append(": Missing block type after #");
                proof {
                    assert(msg@ =~= warn_missing(line_number as nat));
                }
                let ghost prev = msgs_of(warnings@);
                warnings.push(msg);
                proof {
                    assert(msgs_of(warnings@) =~= prev.push(warn_missing(line_number as nat)));
                }
            } else if !is_letter_exec(tv[a]) {
                let mut msg = String::new();
                msg.append("Line ");
                push_usize(&mut msg, line_number);
                msg.append(": Block type must start with letter");
                proof {
                    assert(msg@ =~= warn_letter(line_number as nat));
                }
                let ghost prev = msgs_of(warnings@);
                warnings.push(msg);
                proof {
                    assert(msgs_of(warnings@) =~= prev.push(warn_letter(line_number as nat)));
                }
            }
            proof {
                assert((level >= 1 && level - 1 > current_level) == (level > current_level
                    + 1));
                assert(msgs_of(warnings@) =~= w0 + validate_line(
                    current_level as nat,
                    ls[i as int],
                    line_number as nat,
                ));
            }
            current_level = level;
        } else {
            proof {
                assert(validate_line(current_level as nat, ls[i as int], line_number as nat)
                    =~= Seq::<Seq<char>>::empty());
                assert(validate_level(current_level as nat, ls[i as int]) == current_level as nat);
            }
        }
        i = i + 1;
    }
    proof {
        assert(validate_from(current_level as nat, ls, i as int) =~= Seq::<Seq<char>>::empty());
        assert(msgs_of(warnings@) =~= validate_spec(content@));
    }
    Ok(warnings)
}

} // verus!
