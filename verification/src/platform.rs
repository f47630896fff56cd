//! Reading what the system tools report: which process listens on a port
//! (`netstat -ano`), a process's image name (`tasklist`), and why a kill failed
//! (`taskkill`).
use crate::text::{
    append_chars, append_str, contains, contains_chars, decimal, ends_with, ends_with_chars,
    from_chars, lines, parse_unsigned, parse_unsigned_chars, push_decimal, split, split_char,
    split_lines, split_whitespace, strip_both, to_chars, trim, trim_matches, trimmed, views, words,
};
use vstd::prelude::*;

verus! {

broadcast use vstd::string::group_string_axioms;

/// `":<port>"`, the suffix of a local address bound to `port`.
pub open spec fn port_suffix(port: u16) -> Seq<char> {
    seq![':'] + decimal(port as nat)
}

/// The process id that one `netstat -ano` line reports as listening on `port`:
/// the trimmed line mentions `":<port>"` and `LISTENING`, has at least five
/// fields, its second field (the local address) ends with `":<port>"`, and its
/// last field is a process id.
pub open spec fn listening_pid(line: Seq<char>, port: u16) -> Option<u32> {
    let t = trim(line);
    let parts = words(t);
    if !contains(t, port_suffix(port)) || !contains(t, "LISTENING"@) {
        None
    } else if parts.len() < 5 || !ends_with(parts[1], port_suffix(port)) {
        None
    } else {
        match parse_unsigned(parts.last(), u32::MAX as nat) {
            Some(v) => Some(v as u32),
            None => None,
        }
    }
}

/// The process id of the first line that reports a listener on `port`.
pub open spec fn first_listening_pid(ls: Seq<Seq<char>>, port: u16) -> Option<u32>
    decreases ls.len(),
{
    if ls.len() == 0 {
        None
    } else {
        match listening_pid(ls[0], port) {
            Some(pid) => Some(pid),
            None => first_listening_pid(ls.drop_first(), port),
        }
    }
}

/// What a `netstat -ano` line reports as listening on `port`: exactly when its
/// trimmed text mentions `":<port>"` and `LISTENING`, it has at least five
/// fields, its second field (the local address, whatever it starts with) ends
/// with `":<port>"`, and its last field is a `u32`, that field is the process id.
pub proof fn listener_line_gives_last_field(line: Seq<char>, port: u16)
    ensures
        ({
            let t = trim(line);
            let parts = words(t);
            let suffix = seq![':'] + decimal(port as nat);
            let shown = contains(t, suffix) && contains(t, "LISTENING"@) && parts.len() >= 5
                && ends_with(parts[1], suffix);
            &&& forall|v: u32| #[trigger] listening_pid(line, port) == Some(v) <==> (shown
                && parse_unsigned(parts[parts.len() - 1], u32::MAX as nat) == Some(v as nat))
            &&& listening_pid(line, port) is None <==> !(shown && parse_unsigned(
                parts[parts.len() - 1],
                u32::MAX as nat,
            ) is Some)
        }),
{
    let t = trim(line);
    let parts = words(t);
    if let Some(n) = parse_unsigned(parts.last(), u32::MAX as nat) {
        assert((n as u32) as nat == n);
    }
}

/// The process found in `netstat -ano` output is the one of the first line that
/// reports a listener on `port`; no line reports one when none is found.
pub proof fn first_listener_wins(ls: Seq<Seq<char>>, port: u16)
    ensures
        first_listening_pid(ls, port) matches Some(v) ==> exists|i: int|
            0 <= i < ls.len() && #[trigger] listening_pid(ls[i], port) == Some(v) && forall|j: int|
                0 <= j < i ==> #[trigger] listening_pid(ls[j], port) is None,
        first_listening_pid(ls, port) is None ==> forall|i: int|
            0 <= i < ls.len() ==> #[trigger] listening_pid(ls[i], port) is None,
    decreases ls.len(),
{
    if ls.len() > 0 {
        first_listener_wins(ls.drop_first(), port);
        if listening_pid(ls[0], port) is None {
            if let Some(v) = first_listening_pid(ls, port) {
                let k = choose|i: int|
                    0 <= i < ls.drop_first().len() && #[trigger] listening_pid(ls.drop_first()[i], port)
                        == Some(v) && forall|j: int|
                        0 <= j < i ==> #[trigger] listening_pid(ls.drop_first()[j], port) is None;
                assert(listening_pid(ls[k + 1], port) == Some(v));
                assert forall|j: int| 0 <= j < k + 1 implies #[trigger] listening_pid(ls[j], port) is None by {
                    if j > 0 {
                        assert(ls[j] == ls.drop_first()[j - 1]);
                    }
                }
            } else {
                assert forall|i: int| 0 <= i < ls.len() implies #[trigger] listening_pid(ls[i], port) is None by {
                    if i > 0 {
                        assert(ls[i] == ls.drop_first()[i - 1]);
                    }
                }
            }
        }
    }
}

/// `":<port>"` as characters.
fn port_suffix_chars(port: u16) -> (r: Vec<char>)
    ensures
        r@ == port_suffix(port),
{
    let mut r: Vec<char> = Vec::new();
    r.push(':');
    push_decimal(&mut r, port as u64);
    assert(r@ =~= port_suffix(port));
    r
}

/// The process id one line reports as listening on `port`.
fn line_listening_pid(line: &[char], port_text: &[char], listening: &[char], port: u16) -> (r:
    Option<u32>)
    requires
        port_text@ == port_suffix(port),
        listening@ == "LISTENING"@,
    ensures
        r == listening_pid(line@, port),
{
    let t = trimmed(line);
    if !contains_chars(t.as_slice(), port_text) || !contains_chars(t.as_slice(), listening) {
        return None;
    }
    let parts = split_whitespace(t.as_slice());
    proof {
        assert(views(parts@).len() == parts@.len());
    }
    if parts.len() < 5 {
        return None;
    }
    assert(views(parts@)[1] == parts@[1]@);
    if !ends_with_chars(parts[1].as_slice(), port_text) {
        return None;
    }
    let last = parts.len() - 1;
    assert(views(parts@).last() == parts@[last as int]@);
    match parse_unsigned_chars(parts[last].as_slice(), 0xffff_ffff) {
        Some(v) => Some(v as u32),
        None => None,
    }
}

/// The id of the process that `netstat -ano` output reports as listening on
/// `port`, from the first line that reports one.
pub fn find_listening_pid(netstat_output: &str, port: u16) -> (r: Option<u32>)
    ensures
        r == first_listening_pid(lines(netstat_output@), port),
        r matches Some(v) ==> exists|i: int|
            0 <= i < lines(netstat_output@).len() && #[trigger] listening_pid(
                lines(netstat_output@)[i],
                port,
            ) == Some(v) && forall|j: int|
                0 <= j < i ==> #[trigger] listening_pid(lines(netstat_output@)[j], port) is None,
        r is None ==> forall|i: int|
            0 <= i < lines(netstat_output@).len() ==> #[trigger] listening_pid(
                lines(netstat_output@)[i],
                port,
            ) is None,
{
    proof {
        first_listener_wins(lines(netstat_output@), port);
    }
    let cs = to_chars(netstat_output);
    let ls = split_lines(cs.as_slice());
    let port_text = port_suffix_chars(port);
    let listening = to_chars("LISTENING");
    let ghost all = views(ls@);
    assert(all.skip(0) =~= all);
    for i in 0..ls.len()
        invariant
            all == views(ls@),
            all == lines(netstat_output@),
            port_text@ == port_suffix(port),
            listening@ == "LISTENING"@,
            first_listening_pid(all, port) == first_listening_pid(all.skip(i as int), port),
    {
        assert(all.skip(i as int)[0] == ls@[i as int]@);
        assert(all.skip(i as int).drop_first() =~= all.skip(i + 1));
        match line_listening_pid(ls[i].as_slice(), port_text.as_slice(), listening.as_slice(), port) {
            Some(pid) => {
                proof {
                    first_listener_wins(lines(netstat_output@), port);
                }
                return Some(pid);
            },
            None => {},
        }
    }
    None
}

/// The image name on the first line of `tasklist /FO CSV /NH` output: the first
/// comma-separated field without its surrounding quotes.
pub open spec fn tasklist_name(output: Seq<char>) -> Option<Seq<char>> {
    if lines(output).len() == 0 {
        None
    } else {
        Some(strip_both(split(lines(output)[0], ',')[0], '"'))
    }
}

/// The name shown for a process: the one `tasklist` reports, else `unknown`
/// (also when `tasklist` could not be run, `output == None`).
pub open spec fn shown_process_name(output: Option<Seq<char>>) -> Seq<char> {
    match output {
        Some(o) => match tasklist_name(o) {
            Some(n) => n,
            None => "unknown"@,
        },
        None => "unknown"@,
    }
}

proof fn lemma_lines_word(t: Seq<char>, rest: Seq<char>, cur: Seq<char>)
    requires
        forall|i: int| 0 <= i < t.len() ==> #[trigger] t[i] != '\n',
    ensures
        crate::text::lines_from(t + rest, cur) == crate::text::lines_from(rest, cur + t),
    decreases t.len(),
{
    if t.len() == 0 {
        assert(t + rest =~= rest);
        assert(cur + t =~= cur);
    } else {
        assert((t + rest).drop_first() =~= t.drop_first() + rest);
        assert((t + rest)[0] == t[0]);
        assert(cur.push(t[0]) + t.drop_first() =~= cur + t);
        lemma_lines_word(t.drop_first(), rest, cur.push(t[0]));
    }
}

/// When the first line of `tasklist` output starts with a quoted image name
/// and a comma (`"name.exe",...`), the name shown is that name, without quotes.
pub proof fn quoted_first_field_is_the_name(name: Seq<char>, rest_of_line: Seq<char>, more: Seq<
    char,
>)
    requires
        forall|i: int| 0 <= i < name.len() ==> #[trigger] name[i] != '"' && name[i] != ','
            && name[i] != '\n',
        forall|i: int| 0 <= i < rest_of_line.len() ==> #[trigger] rest_of_line[i] != '\n',
    ensures
        shown_process_name(
            Some(seq!['"'] + name + seq!['"', ','] + rest_of_line + seq!['\n'] + more),
        ) == name,
{
    let field = seq!['"'] + name + seq!['"'];
    let line = field + seq![','] + rest_of_line;
    let out = line + seq!['\n'] + more;
    assert(seq!['"'] + name + seq!['"', ','] + rest_of_line + seq!['\n'] + more =~= out);
    assert forall|i: int| 0 <= i < line.len() implies #[trigger] line[i] != '\n' by {
        if i < field.len() {
            if 0 < i < field.len() - 1 {
                assert(line[i] == name[i - 1]);
            }
        } else if i > field.len() {
            assert(line[i] == rest_of_line[i - field.len() - 1]);
        }
    }
    lemma_lines_word(line, seq!['\n'] + more, seq![]);
    assert(Seq::<char>::empty() + line =~= line);
    assert((seq!['\n'] + more).drop_first() =~= more);
    assert(out =~= line + (seq!['\n'] + more));
    assert(crate::text::lines_from(seq!['\n'] + more, line) == seq![crate::text::strip_cr(line)]
        + crate::text::lines_from(more, seq![]));
    let first = crate::text::strip_cr(line);
    assert(crate::text::lines(out)[0] == first);
    // the first line still begins with the quoted field and a comma
    let tail = if rest_of_line.len() > 0 && rest_of_line.last() == '\r' {
        rest_of_line.drop_last()
    } else {
        rest_of_line
    };
    assert(first =~= field + (seq![','] + tail));
    assert forall|i: int| 0 <= i < field.len() implies #[trigger] field[i] != ',' by {
        if 0 < i < field.len() - 1 {
            assert(field[i] == name[i - 1]);
        }
    }
    crate::text::lemma_split_word(field, seq![','] + tail, ',', seq![]);
    assert(Seq::<char>::empty() + field =~= field);
    assert((seq![','] + tail).drop_first() =~= tail);
    assert(crate::text::split(first, ',')[0] == field);
    // the quotes come off, and only they
    let inner = name + seq!['"'];
    assert(field.drop_first() =~= inner);
    assert(crate::text::strip_leading(field, '"') == crate::text::strip_leading(inner, '"'));
    if name.len() > 0 {
        assert(inner[0] == name[0]);
        assert(crate::text::strip_leading(inner, '"') == inner);
        assert(inner.drop_last() =~= name);
        assert(name.last() != '"');
        assert(crate::text::strip_trailing(inner, '"') == crate::text::strip_trailing(name, '"'));
    } else {
        assert(inner =~= seq!['"']);
        assert(inner.drop_first() =~= Seq::<char>::empty());
        assert(crate::text::strip_leading(inner, '"') == crate::text::strip_leading(
            Seq::<char>::empty(),
            '"',
        ));
        assert(name =~= Seq::<char>::empty());
    }
}

/// The process name from `tasklist` output, or `unknown`.
pub fn process_name(tasklist_output: Option<&str>) -> (r: String)
    ensures
        r@ == shown_process_name(
            match tasklist_output {
                Some(o) => Some(o@),
                None => None,
            },
        ),
{
    match tasklist_output {
        None => String::from_str("unknown"),
        Some(o) => {
            let cs = to_chars(o);
            let ls = split_lines(cs.as_slice());
            if ls.len() == 0 {
                return String::from_str("unknown");
            }
            assert(views(ls@)[0] == ls@[0]@);
            let fields = split_char(ls[0].as_slice(), ',');
            assert(views(fields@).len() > 0) by {
                lemma_split_nonempty(ls@[0]@, ',', seq![]);
            }
            assert(views(fields@)[0] == fields@[0]@);
            let name = trim_matches(fields[0].as_slice(), '"');
            from_chars(name.as_slice())
        },
    }
}

proof fn lemma_split_nonempty(s: Seq<char>, sep: char, cur: Seq<char>)
    ensures
        crate::text::split_from(s, sep, cur).len() > 0,
    decreases s.len(),
{
    if s.len() > 0 {
        if s[0] != sep {
            lemma_split_nonempty(s.drop_first(), sep, cur.push(s[0]));
        }
    }
}

/// The message for a failed `taskkill` of `pid`, read from its error output.
pub open spec fn kill_failure_text(pid: u32, stderr: Seq<char>) -> Seq<char> {
    if contains(stderr, "Access is denied"@) || contains(stderr, "Permission"@) {
        "Permission denied. Try running wux as administrator."@
    } else if contains(stderr, "not found"@) || contains(stderr, "not find"@) {
        "Process "@ + decimal(pid as nat) + " not found - it may have already exited."@
    } else {
        "Failed to kill process "@ + decimal(pid as nat) + ": "@ + trim(stderr)
    }
}

/// A refused kill is reported as a permission problem whenever the error
/// output says access is denied or mentions permission; otherwise as a vanished
/// process when it says the process was not found; otherwise the output itself
/// is shown, trimmed, after the process id.
pub proof fn kill_failures_are_explained(pid: u32, stderr: Seq<char>)
    ensures
        contains(stderr, "Access is denied"@) || contains(stderr, "Permission"@) ==> kill_failure_text(
            pid,
            stderr,
        ) == "Permission denied. Try running wux as administrator."@,
        !(contains(stderr, "Access is denied"@) || contains(stderr, "Permission"@)) && (contains(
            stderr,
            "not found"@,
        ) || contains(stderr, "not find"@)) ==> kill_failure_text(pid, stderr) == "Process "@
            + decimal(pid as nat) + " not found - it may have already exited."@,
        !(contains(stderr, "Access is denied"@) || contains(stderr, "Permission"@) || contains(
            stderr,
            "not found"@,
        ) || contains(stderr, "not find"@)) ==> kill_failure_text(pid, stderr)
            == "Failed to kill process "@ + decimal(pid as nat) + ": "@ + trim(stderr),
{
}

/// Why killing `pid` failed, given what `taskkill` wrote to its error output.
pub fn kill_failure_message(pid: u32, stderr: &str) -> (r: String)
    ensures
        r@ == kill_failure_text(pid, stderr@),
{
    let e = to_chars(stderr);
    let denied = to_chars("Access is denied");
    let permission = to_chars("Permission");
    if contains_chars(e.as_slice(), denied.as_slice()) || contains_chars(
        e.as_slice(),
        permission.as_slice(),
    ) {
        return String::from_str("Permission denied. Try running wux as administrator.");
    }
    let not_found = to_chars("not found");
    let not_find = to_chars("not find");
    let mut out: Vec<char> = Vec::new();
    if contains_chars(e.as_slice(), not_found.as_slice()) || contains_chars(
        e.as_slice(),
        not_find.as_slice(),
    ) {
        append_str(&mut out, "Process ");
        push_decimal(&mut out, pid as u64);
        append_str(&mut out, " not found - it may have already exited.");
    } else {
        append_str(&mut out, "Failed to kill process ");
        push_decimal(&mut out, pid as u64);
        append_str(&mut out, ": ");
        let t = trimmed(e.as_slice());
        append_chars(&mut out, t.as_slice());
    }
    from_chars(out.as_slice())
}

} // verus!
