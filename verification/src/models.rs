//! Which models are loaded, read from the replies of Ollama and of `nvidia-smi`.

use vstd::prelude::*;

use crate::outside::read_text;
use crate::smi::{
    command_text, fields, fields_of, is_field, is_room, law_fields_are_read_back, line_of,
    output_text, CommandOutcome,
};
use crate::text::{
    after_last, chars_of, dedup, deduped, dictionary_le, find, find_from, first_at, join, joined,
    last_piece, law_dedup_drops_repeats, law_first_line, law_join_is_made_of_its_parts,
    law_join_then_split, law_sorted_names_are_unique, lemma_dedup_keeps_entries, lemma_find,
    lemma_find_is, line_seq, lines, occurs_at, piece, sort, sorted, trimmed, views,
};

verus! {

/// A process that holds GPU memory.
pub struct ProcessInfo {
    pub pid: u32,
    pub name: String,
    /// The memory in use in MiB, as the decimal text that was printed; nothing where the source
    /// does not say.
    pub used_memory_mb: Option<String>,
    pub model: String,
}

/// The facts that a `ProcessInfo` holds.
pub struct ProcessFacts {
    pub pid: u32,
    pub name: Seq<char>,
    pub used_memory_mb: Option<Seq<char>>,
    pub model: Seq<char>,
}

impl View for ProcessInfo {
    type V = ProcessFacts;

    open spec fn view(&self) -> ProcessFacts {
        ProcessFacts {
            pid: self.pid,
            name: self.name@,
            used_memory_mb: match self.used_memory_mb {
                Some(text) => Some(text@),
                None => None,
            },
            model: self.model@,
        }
    }
}

/// The facts behind each process of a list.
pub open spec fn facts(list: Seq<ProcessInfo>) -> Seq<ProcessFacts> {
    list.map_values(|p: ProcessInfo| p@)
}

/// The key that comes before a model's name in a reply.
pub open spec fn name_key() -> Seq<char> {
    seq!['"', 'n', 'a', 'm', 'e', '"']
}

/// A double quote.
pub open spec fn quote() -> Seq<char> {
    seq!['"']
}

/// `s` without the spaces and tabs at its front.
pub open spec fn skip_blanks(s: Seq<char>) -> Seq<char>
    decreases s.len(),
{
    if s.len() > 0 && (s[0] == ' ' || s[0] == '\t') {
        skip_blanks(s.drop_first())
    } else {
        s
    }
}

/// `s` starts with `c`.
pub open spec fn starts(s: Seq<char>, c: char) -> bool {
    s.len() > 0 && s[0] == c
}

/// Passing over blanks never makes a text longer.
pub proof fn lemma_skip_blanks_len(s: Seq<char>)
    ensures
        skip_blanks(s).len() <= s.len(),
    decreases s.len(),
{
    if s.len() > 0 {
        lemma_skip_blanks_len(s.drop_first());
    }
}

/// The quoted strings that stand behind a `"name"` key and its colon, in order. A key without a
/// colon or without a quoted string is passed over; a string that no quote ends is left out, and
/// ends the search.
pub open spec fn model_names(s: Seq<char>) -> Seq<Seq<char>>
    decreases s.len(),
{
    match find(s, name_key()) {
        None => Seq::empty(),
        Some(k) => {
            proof {
                lemma_find(s, name_key());
                lemma_skip_blanks_len(s.skip(k + 6));
                lemma_skip_blanks_len(skip_blanks(s.skip(k + 6)).drop_first());
                lemma_find(skip_blanks(skip_blanks(s.skip(k + 6)).drop_first()).drop_first(), quote());
            }
            let value = skip_blanks(s.skip(k + 6));
            if !starts(value, ':') {
                model_names(value)
            } else {
                let string = skip_blanks(value.drop_first());
                if !starts(string, '"') {
                    model_names(string)
                } else {
                    let body = string.drop_first();
                    match find(body, quote()) {
                        None => Seq::empty(),
                        Some(end) => seq![body.take(end)] + model_names(body.skip(end + 1)),
                    }
                }
            }
        },
    }
}

/// The place of the first character from `from` on that is no space or tab.
fn past_blanks(chars: &Vec<char>, from: usize) -> (r: usize)
    requires
        from <= chars@.len(),
    ensures
        from <= r <= chars@.len(),
        chars@.skip(r as int) == skip_blanks(chars@.skip(from as int)),
{
    let mut at: usize = from;
    while at < chars.len() && (chars[at] == ' ' || chars[at] == '\t')
        invariant
            from <= at <= chars@.len(),
            skip_blanks(chars@.skip(at as int)) == skip_blanks(chars@.skip(from as int)),
        decreases chars.len() - at,
    {
        assert(chars@.skip(at as int).drop_first() == chars@.skip(at + 1));
        at = at + 1;
    }
    at
}

/// The model names in a reply, in order.
pub fn names_in(reply: &str) -> (r: Vec<String>)
    ensures
        views(r@) == model_names(reply@),
{
    let chars = chars_of(reply);
    let key: Vec<char> = vec!['"', 'n', 'a', 'm', 'e', '"'];
    let mark: Vec<char> = vec!['"'];
    assert(key@ == name_key());
    assert(mark@ == quote());
    let mut r: Vec<String> = Vec::new();
    let total: usize = chars.len();
    let mut at: usize = 0;
    assert(reply@.skip(0) == reply@);
    assert(views(r@) + model_names(reply@) == model_names(reply@));
    loop
        invariant
            chars@ == reply@,
            total == chars@.len(),
            key@ == name_key(),
            mark@ == quote(),
            at <= total,
            views(r@) + model_names(reply@.skip(at as int)) == model_names(reply@),
        decreases total - at,
    {
        let ghost s = reply@.skip(at as int);
        proof {
            lemma_find(s, name_key());
        }
        let k: usize = match find_from(&chars, at, &key) {
            Some(k) => k,
            None => {
                assert(views(r@) + Seq::<Seq<char>>::empty() == views(r@));
                return r;
            },
        };
        assert(s.skip(k + 6) == reply@.skip(at + k + 6));
        let value: usize = past_blanks(&chars, at + k + 6);
        if value == total || chars[value] != ':' {
            at = value;
            continue;
        }
        assert(reply@.skip(value as int).drop_first() == reply@.skip(value + 1));
        let string: usize = past_blanks(&chars, value + 1);
        if string == total || chars[string] != '"' {
            at = string;
            continue;
        }
        let ghost body = reply@.skip(string + 1);
        assert(reply@.skip(string as int).drop_first() == body);
        proof {
            lemma_find(body, quote());
        }
        match find_from(&chars, string + 1, &mark) {
            Some(end) => {
                let ghost before = views(r@);
                let name = piece(reply, string + 1, string + 1 + end);
                assert(name@ == body.take(end as int));
                r.push(name);
                at = string + 1 + end + 1;
                assert(body.skip(end + 1) == reply@.skip(at as int));
                assert(views(r@) == before + seq![body.take(end as int)]);
                assert(views(r@) + model_names(reply@.skip(at as int)) == before + (seq![
                    body.take(end as int),
                ] + model_names(reply@.skip(at as int))));
            },
            None => {
                assert(views(r@) + Seq::<Seq<char>>::empty() == views(r@));
                return r;
            },
        }
    }
}

/// What is known of a process of which only the model's name is known.
pub open spec fn named_process(name: Seq<char>) -> ProcessFacts {
    ProcessFacts { pid: 0, name, used_memory_mb: None, model: name }
}

/// What Ollama's reply says: the label of the loaded models, and one process for each.
pub open spec fn ollama_report(reply: Seq<char>) -> (Seq<char>, Seq<ProcessFacts>) {
    let names = model_names(reply);
    if names.len() == 0 {
        ("idle — nothing in VRAM"@, Seq::empty())
    } else {
        (
            joined(deduped(names), " + "@),
            names.map_values(|name: Seq<char>| named_process(name)),
        )
    }
}

/// What Ollama's reply says: the label of the loaded models, and one process for each.
pub fn parse_ollama_reply(reply: &str) -> (r: (String, Vec<ProcessInfo>))
    ensures
        r.0@ == ollama_report(reply@).0,
        facts(r.1@) == ollama_report(reply@).1,
{
    let names = names_in(reply);
    let ghost all = model_names(reply@);
    let ghost wanted = all.map_values(|name: Seq<char>| named_process(name));
    if names.len() == 0 {
        let none: Vec<ProcessInfo> = Vec::new();
        assert(facts(none@) == Seq::<ProcessFacts>::empty());
        return ("idle — nothing in VRAM".to_owned(), none);
    }
    let mut processes: Vec<ProcessInfo> = Vec::new();
    let mut i: usize = 0;
    while i < names.len()
        invariant
            views(names@) == all,
            wanted == all.map_values(|name: Seq<char>| named_process(name)),
            i <= names.len(),
            facts(processes@) == wanted.take(i as int),
        decreases names.len() - i,
    {
        let ghost before = facts(processes@);
        assert(all[i as int] == names[i as int]@);
        let process = ProcessInfo {
            pid: 0,
            name: names[i].clone(),
            used_memory_mb: None,
            model: names[i].clone(),
        };
        assert(process@ == wanted[i as int]);
        processes.push(process);
        assert(facts(processes@) == before.push(wanted[i as int]));
        i = i + 1;
    }
    assert(wanted.take(names.len() as int) == wanted);
    (join(&dedup(&names), " + "), processes)
}

/// A decimal digit.
pub open spec fn is_digit(c: char) -> bool {
    '0' <= c <= '9'
}

/// The number that decimal digits write.
pub open spec fn decimal(digits: Seq<char>) -> nat
    decreases digits.len(),
{
    if digits.len() == 0 {
        0
    } else {
        10 * decimal(digits.drop_last()) + (digits.last() as nat - '0' as nat) as nat
    }
}

/// The digits of a number that may have a plus sign in front.
pub open spec fn unsigned_digits(s: Seq<char>) -> Seq<char> {
    if starts(s, '+') {
        s.drop_first()
    } else {
        s
    }
}

/// The process id that a text writes in decimal, or 0 where it writes none that fits.
pub open spec fn pid_of(s: Seq<char>) -> u32 {
    let digits = unsigned_digits(s);
    if digits.len() > 0 && (forall|i: int| 0 <= i < digits.len() ==> is_digit(#[trigger] digits[i]))
        && decimal(digits) <= u32::MAX {
        decimal(digits) as u32
    } else {
        0
    }
}

proof fn lemma_decimal_grows(digits: Seq<char>, n: int)
    requires
        0 <= n <= digits.len(),
        forall|i: int| 0 <= i < digits.len() ==> is_digit(#[trigger] digits[i]),
    ensures
        decimal(digits.take(n)) <= decimal(digits),
    decreases digits.len(),
{
    if n < digits.len() {
        assert(digits.drop_last().take(n) == digits.take(n));
        lemma_decimal_grows(digits.drop_last(), n);
    } else {
        assert(digits.take(n) == digits);
    }
}

/// The process id that a text writes in decimal, or 0 where it writes none that fits.
pub fn parse_pid(text: &str) -> (r: u32)
    ensures
        r == pid_of(text@),
{
    let chars = chars_of(text);
    let from: usize = if chars.len() > 0 && chars[0] == '+' {
        1
    } else {
        0
    };
    let ghost digits = unsigned_digits(text@);
    assert(digits == text@.skip(from as int));
    if chars.len() == from {
        return 0;
    }
    let mut value: u32 = 0;
    let mut at: usize = from;
    while at < chars.len()
        invariant
            chars@ == text@,
            digits == unsigned_digits(text@),
            digits == text@.skip(from as int),
            digits.len() > 0,
            from <= at <= chars@.len(),
            forall|i: int| 0 <= i < at - from ==> is_digit(#[trigger] digits[i]),
            value == decimal(digits.take(at - from)),
        decreases chars@.len() - at,
    {
        let c = chars[at];
        assert(digits[at - from] == c);
        if c < '0' || '9' < c {
            return 0;
        }
        let next: u64 = value as u64 * 10 + (c as u32 - '0' as u32) as u64;
        assert(digits.take(at - from + 1).drop_last() == digits.take(at - from));
        assert(next == decimal(digits.take(at - from + 1)));
        if next > u32::MAX as u64 {
            proof {
                if forall|i: int| 0 <= i < digits.len() ==> is_digit(#[trigger] digits[i]) {
                    lemma_decimal_grows(digits, at - from + 1);
                }
            }
            return 0;
        }
        value = next as u32;
        at = at + 1;
    }
    assert(digits.take(chars@.len() - from) == digits);
    value
}

/// What one line of the list of compute processes says, where it holds at least three fields.
pub open spec fn app_line(line: Seq<char>) -> Option<ProcessFacts> {
    let parts = fields(line);
    if parts.len() < 3 {
        None
    } else {
        let name = after_last(parts[1], '/');
        Some(
            ProcessFacts {
                pid: pid_of(parts[0]),
                name,
                used_memory_mb: Some(parts[2]),
                model: name,
            },
        )
    }
}

/// The processes on some lines, in order.
pub open spec fn app_lines(list: Seq<Seq<char>>) -> Seq<ProcessFacts>
    decreases list.len(),
{
    if list.len() == 0 {
        Seq::empty()
    } else {
        match app_line(list.last()) {
            Some(process) => app_lines(list.drop_last()).push(process),
            None => app_lines(list.drop_last()),
        }
    }
}

/// The models of some processes, in order.
pub open spec fn models_of(list: Seq<ProcessFacts>) -> Seq<Seq<char>> {
    list.map_values(|p: ProcessFacts| p.model)
}

/// What the list of compute processes says: the label of the loaded models, and the processes.
pub open spec fn apps_report(report: Seq<char>) -> (Seq<char>, Seq<ProcessFacts>) {
    let processes = app_lines(line_seq(report));
    (
        if processes.len() == 0 {
            "idle — no model"@
        } else {
            joined(deduped(sorted(models_of(processes))), " + "@)
        },
        processes,
    )
}

/// What one line of the list of compute processes says, where it holds at least three fields.
pub fn parse_app_line(line: &str) -> (r: Option<ProcessInfo>)
    ensures
        match r {
            Some(process) => app_line(line@) == Some(process@),
            None => app_line(line@) is None,
        },
{
    let parts = fields_of(line);
    let ghost cells = fields(line@);
    assert(views(parts@) == cells);
    if parts.len() < 3 {
        return None;
    }
    assert(forall|i: int| 0 <= i < cells.len() ==> cells[i] == #[trigger] parts[i]@);
    let name = last_piece(parts[1].as_str(), '/');
    let process = ProcessInfo {
        pid: parse_pid(parts[0].as_str()),
        name: name.clone(),
        used_memory_mb: Some(parts[2].clone()),
        model: name,
    };
    Some(process)
}

/// What the list of compute processes says: the label of the loaded models, and the processes.
pub fn parse_compute_apps(report: &str) -> (r: (String, Vec<ProcessInfo>))
    ensures
        r.0@ == apps_report(report@).0,
        facts(r.1@) == apps_report(report@).1,
{
    let all = lines(report);
    let ghost seen = line_seq(report@);
    let mut processes: Vec<ProcessInfo> = Vec::new();
    let mut models: Vec<String> = Vec::new();
    let mut i: usize = 0;
    while i < all.len()
        invariant
            views(all@) == seen,
            i <= all.len(),
            facts(processes@) == app_lines(seen.take(i as int)),
            views(models@) == models_of(facts(processes@)),
        decreases all.len() - i,
    {
        assert(seen.take(i + 1).drop_last() == seen.take(i as int));
        assert(seen[i as int] == all[i as int]@);
        let ghost before = facts(processes@);
        let ghost named = views(models@);
        if let Some(process) = parse_app_line(all[i].as_str()) {
            models.push(process.model.clone());
            assert(views(models@) == named.push(process@.model));
            processes.push(process);
            assert(facts(processes@) == before.push(process@));
            assert(models_of(facts(processes@)) == models_of(before).push(process@.model));
        }
        i = i + 1;
    }
    assert(seen.take(all.len() as int) == seen);
    let label = if processes.len() == 0 {
        "idle — no model".to_owned()
    } else {
        join(&dedup(&sort(&models)), " + ")
    };
    (label, processes)
}

/// The facts behind a report of loaded models.
pub open spec fn report_result(r: Result<(String, Vec<ProcessInfo>), String>) -> Result<
    (Seq<char>, Seq<ProcessFacts>),
    Seq<char>,
> {
    match r {
        Ok(report) => Ok((report.0@, facts(report.1@))),
        Err(e) => Err(e@),
    }
}

/// What a run of `nvidia-smi` says about the compute processes, or why it says nothing.
pub open spec fn fallback_report(outcome: CommandOutcome) -> Result<
    (Seq<char>, Seq<ProcessFacts>),
    Seq<char>,
> {
    match command_text(outcome) {
        Ok(report) => Ok(apps_report(report)),
        Err(reason) => Err(reason),
    }
}

/// What a run of `nvidia-smi` says about the compute processes, or why it says nothing.
pub fn query_compute_apps(outcome: &CommandOutcome) -> (r: Result<
    (String, Vec<ProcessInfo>),
    String,
>)
    ensures
        report_result(r) == fallback_report(*outcome),
        match *outcome {
            CommandOutcome::NotStarted(reason) => r matches Err(e) && e@ == "nvidia-smi failed: "@
                + reason@,
            CommandOutcome::Finished { success: true, stdout, .. } => r matches Ok(report)
                && report.0@ == apps_report(read_text(stdout@)).0 && facts(report.1@)
                == apps_report(read_text(stdout@)).1,
            CommandOutcome::Finished { success: false, stderr, .. } => r matches Err(e) && e@
                == trimmed(read_text(stderr@)),
        },
{
    match output_text(outcome) {
        Ok(report) => Ok(parse_compute_apps(report.as_str())),
        Err(reason) => Err(reason),
    }
}

/// The models that are loaded. Ollama's reply decides where there is one; only where there is
/// none is `nvidia-smi` run.
pub fn query_loaded_model<F: FnOnce() -> CommandOutcome>(
    reply: Result<String, String>,
    run_smi: F,
) -> (r: Result<(String, Vec<ProcessInfo>), String>)
    requires
        reply is Err ==> run_smi.requires(()),
    ensures
        reply matches Ok(text) ==> report_result(r) == Ok::<
            (Seq<char>, Seq<ProcessFacts>),
            Seq<char>,
        >(ollama_report(text@)),
        reply matches Ok(text) ==> r matches Ok(report) && report.0@ == ollama_report(text@).0
            && facts(report.1@) == ollama_report(text@).1,
        reply is Err ==> exists|outcome: CommandOutcome|
            run_smi.ensures((), outcome) && report_result(r) == #[trigger] fallback_report(outcome),
{
    match reply {
        Ok(text) => Ok(parse_ollama_reply(text.as_str())),
        Err(_) => {
            let outcome = run_smi();
            query_compute_apps(&outcome)
        },
    }
}

/// Nothing but spaces and tabs.
pub open spec fn is_blank(s: Seq<char>) -> bool {
    forall|i: int| 0 <= i < s.len() ==> #[trigger] s[i] == ' ' || s[i] == '\t'
}

/// A key, a colon and a quoted name, with room round the colon.
pub open spec fn name_entry(gap: Seq<char>, room: Seq<char>, name: Seq<char>) -> Seq<char> {
    name_key() + gap + seq![':'] + room + quote() + name + quote()
}

proof fn lemma_skip_blanks_over(gap: Seq<char>, rest: Seq<char>)
    requires
        is_blank(gap),
        rest.len() > 0 ==> rest[0] != ' ' && rest[0] != '\t',
    ensures
        skip_blanks(gap + rest) == rest,
    decreases gap.len(),
{
    if gap.len() == 0 {
        assert(gap + rest == rest);
    } else {
        assert((gap + rest).drop_first() == gap.drop_first() + rest);
        assert((gap + rest)[0] == gap[0]);
        lemma_skip_blanks_over(gap.drop_first(), rest);
    }
}

/// A name that holds no quote is read back from its entry, whatever stands before the entry (so
/// long as the key stands there nowhere sooner) and whatever follows it.
#[verifier::spinoff_prover]
#[verifier::rlimit(50)]
pub proof fn law_name_is_read_back(
    head: Seq<char>,
    gap: Seq<char>,
    room: Seq<char>,
    name: Seq<char>,
    rest: Seq<char>,
)
    requires
        is_blank(gap),
        is_blank(room),
        !name.contains('"'),
        first_at(head + name_entry(gap, room, name) + rest, name_key(), head.len() as int),
    ensures
        model_names(head + name_entry(gap, room, name) + rest) == seq![name] + model_names(rest),
{
    let s = head + name_entry(gap, room, name) + rest;
    let k = head.len() as int;
    lemma_find_is(s, name_key(), k);
    let from_string = quote() + (name + quote() + rest);
    let from_colon = seq![':'] + (room + from_string);
    assert(s.skip(k + 6) == gap + from_colon);
    lemma_skip_blanks_over(gap, from_colon);
    assert(from_colon.drop_first() == room + from_string);
    lemma_skip_blanks_over(room, from_string);
    let body = name + quote() + rest;
    assert(from_string.drop_first() == body);
    let end = name.len() as int;
    assert(occurs_at(body, quote(), end)) by {
        assert(body.subrange(end, end + 1) == quote());
    }
    assert forall|j: int| 0 <= j < end implies !occurs_at(body, quote(), j) by {
        if occurs_at(body, quote(), j) {
            assert(body.subrange(j, j + 1)[0] == name[j]);
            assert(name.contains('"'));
        }
    }
    lemma_find_is(body, quote(), end);
    assert(body.take(end) == name);
    assert(body.skip(end + 1) == rest);
}

/// A reply that lists some names, each in an object of its own, and ends in `tail`.
pub open spec fn reply_of(names: Seq<Seq<char>>, tail: Seq<char>) -> Seq<char>
    decreases names.len(),
{
    if names.len() == 0 {
        tail
    } else {
        seq!['{'] + name_entry(Seq::empty(), Seq::empty(), names[0]) + (seq!['}', ','] + reply_of(
            names.drop_first(),
            tail,
        ))
    }
}

#[verifier::spinoff_prover]
#[verifier::rlimit(50)]
proof fn lemma_names_with_front(front: Seq<char>, names: Seq<Seq<char>>, tail: Seq<char>)
    requires
        !front.contains('"'),
        find(front + tail, name_key()) is None,
        find(seq!['}', ','] + tail, name_key()) is None,
        forall|i: int| 0 <= i < names.len() ==> !(#[trigger] names[i]).contains('"'),
    ensures
        model_names(front + reply_of(names, tail)) == names,
    decreases names.len(),
{
    if names.len() > 0 {
        let head = front + seq!['{'];
        let entry = name_entry(Seq::empty(), Seq::empty(), names[0]);
        let back = reply_of(names.drop_first(), tail);
        let rest = seq!['}', ','] + back;
        let s = head + entry + rest;
        assert(front + reply_of(names, tail) == s);
        let k = head.len() as int;
        assert(s.subrange(k, k + 6) == name_key());
        assert forall|j: int| 0 <= j < k implies !occurs_at(s, name_key(), j) by {
            if occurs_at(s, name_key(), j) {
                assert(s.subrange(j, j + 6)[0] == s[j]);
                assert(s[j] == head[j]);
                assert(front.contains('"'));
            }
        }
        law_name_is_read_back(head, Seq::empty(), Seq::empty(), names[0], rest);
        assert forall|i: int| 0 <= i < names.drop_first().len() implies !(
        #[trigger] names.drop_first()[i]).contains('"') by {
            assert(names[i + 1] == names.drop_first()[i]);
        }
        lemma_names_with_front(seq!['}', ','], names.drop_first(), tail);
        assert(seq![names[0]] + names.drop_first() == names);
    }
}

/// Names written into a reply are read back from it, in order and all of them, so long as no
/// name holds a quote and what ends the reply holds no further key.
pub proof fn law_names_read_back(names: Seq<Seq<char>>, tail: Seq<char>)
    requires
        find(tail, name_key()) is None,
        forall|i: int| 0 <= i < names.len() ==> !(#[trigger] names[i]).contains('"'),
    ensures
        model_names(reply_of(names, tail)) == names,
{
    let none = Seq::<char>::empty();
    lemma_no_key_behind(none, tail);
    lemma_no_key_behind(seq!['}', ','], tail);
    lemma_names_with_front(none, names, tail);
    assert(none + reply_of(names, tail) == reply_of(names, tail));
}

proof fn lemma_no_key_behind(front: Seq<char>, tail: Seq<char>)
    requires
        find(tail, name_key()) is None,
        !front.contains('"'),
    ensures
        find(front + tail, name_key()) is None,
{
    let s = front + tail;
    lemma_find(s, name_key());
    lemma_find(tail, name_key());
    if find(s, name_key()) is Some {
        let k = find(s, name_key())->0;
        let n = front.len() as int;
        assert(s.subrange(k, k + 6)[0] == s[k]);
        if k < n {
            assert(front[k] == '"');
        } else {
            assert(tail.subrange(k - n, k - n + 6) == s.subrange(k, k + 6));
            assert(occurs_at(tail, name_key(), k - n));
        }
    }
}

/// The label of the compute processes names every model exactly once, in dictionary order.
pub proof fn law_label_names_each_model_once(report: Seq<char>)
    requires
        apps_report(report).1.len() > 0,
    ensures
        ({
            let models = models_of(apps_report(report).1);
            let shown = deduped(sorted(models));
            &&& apps_report(report).0 == joined(shown, " + "@)
            &&& shown.no_duplicates()
            &&& forall|i: int, j: int|
                0 <= i < j < shown.len() ==> dictionary_le(
                    #[trigger] shown[i],
                    #[trigger] shown[j],
                )
            &&& forall|m: Seq<char>| #[trigger] shown.contains(m) <==> models.contains(m)
        }),
{
    law_sorted_names_are_unique(models_of(apps_report(report).1));
}

/// Ollama's reply gives one process for each name that it lists, in the same order.
pub proof fn law_one_process_per_name(reply: Seq<char>)
    ensures
        ollama_report(reply).1.len() == model_names(reply).len(),
        models_of(ollama_report(reply).1) == model_names(reply),
{
    let names = model_names(reply);
    let processes = ollama_report(reply).1;
    assert(models_of(processes) == names);
}

/// The facts behind a list of processes are what the processes hold, one by one.
pub proof fn law_facts_are_what_is_held(list: Seq<ProcessInfo>, i: int)
    ensures
        facts(list).len() == list.len(),
        0 <= i < list.len() ==> {
            &&& facts(list)[i].pid == list[i].pid
            &&& facts(list)[i].name == list[i].name@
            &&& facts(list)[i].model == list[i].model@
            &&& match list[i].used_memory_mb {
                Some(text) => facts(list)[i].used_memory_mb == Some(text@),
                None => facts(list)[i].used_memory_mb is None,
            }
        },
{
}

/// The quoted word `name` stands at `k`, and nowhere to the left of it.
pub open spec fn name_word_first_at(s: Seq<char>, k: int) -> bool {
    &&& 0 <= k <= s.len() - 6
    &&& s.subrange(k, k + 6) == seq!['"', 'n', 'a', 'm', 'e', '"']
    &&& forall|j: int|
        0 <= j < k ==> #[trigger] s.subrange(j, j + 6) != seq!['"', 'n', 'a', 'm', 'e', '"']
}

proof fn lemma_name_word_is_found(s: Seq<char>, k: int)
    requires
        name_word_first_at(s, k),
    ensures
        find(s, name_key()) == Some(k),
{
    assert(name_key() =~= seq!['"', 'n', 'a', 'm', 'e', '"']);
    assert forall|j: int| 0 <= j < k implies !occurs_at(s, name_key(), j) by {
        assert(s.subrange(j, j + 6) != seq!['"', 'n', 'a', 'm', 'e', '"']);
    }
    lemma_find_is(s, name_key(), k);
}

/// Where the quoted word `name` stands nowhere, no model is named.
pub proof fn law_no_name_word_no_model(s: Seq<char>)
    requires
        forall|j: int|
            0 <= j <= s.len() - 6 ==> #[trigger] s.subrange(j, j + 6) != seq![
                '"',
                'n',
                'a',
                'm',
                'e',
                '"',
            ],
    ensures
        model_names(s) == Seq::<Seq<char>>::empty(),
{
    lemma_find(s, name_key());
    assert(name_key() =~= seq!['"', 'n', 'a', 'm', 'e', '"']);
    if find(s, name_key()) is Some {
        let k = find(s, name_key())->0;
        assert(s.subrange(k, k + 6) != seq!['"', 'n', 'a', 'm', 'e', '"']);
    }
}

/// What stands between quotes behind the word `name` and a colon is a model's name, whatever
/// spaces and tabs stand round the colon; the search goes on behind it.
#[verifier::spinoff_prover]
#[verifier::rlimit(50)]
pub proof fn law_quoted_name_is_a_model(
    head: Seq<char>,
    gap: Seq<char>,
    room: Seq<char>,
    name: Seq<char>,
    rest: Seq<char>,
)
    requires
        forall|i: int| 0 <= i < gap.len() ==> #[trigger] gap[i] == ' ' || gap[i] == '\t',
        forall|i: int| 0 <= i < room.len() ==> #[trigger] room[i] == ' ' || room[i] == '\t',
        !name.contains('"'),
        name_word_first_at(
            head + (seq!['"', 'n', 'a', 'm', 'e', '"'] + gap + seq![':'] + room + seq!['"'] + name
                + seq!['"']) + rest,
            head.len() as int,
        ),
    ensures
        model_names(
            head + (seq!['"', 'n', 'a', 'm', 'e', '"'] + gap + seq![':'] + room + seq!['"'] + name
                + seq!['"']) + rest,
        ) == seq![name] + model_names(rest),
{
    let entry = seq!['"', 'n', 'a', 'm', 'e', '"'] + gap + seq![':'] + room + seq!['"'] + name
        + seq!['"'];
    let s = head + entry + rest;
    assert(name_key() =~= seq!['"', 'n', 'a', 'm', 'e', '"']);
    assert(name_entry(gap, room, name) == entry);
    lemma_name_word_is_found(s, head.len() as int);
    lemma_find(s, name_key());
    law_name_is_read_back(head, gap, room, name, rest);
}

/// A name whose second quote is missing is left out, and nothing behind it is named.
#[verifier::spinoff_prover]
#[verifier::rlimit(50)]
pub proof fn law_unended_name_is_no_model(
    head: Seq<char>,
    gap: Seq<char>,
    room: Seq<char>,
    name: Seq<char>,
)
    requires
        forall|i: int| 0 <= i < gap.len() ==> #[trigger] gap[i] == ' ' || gap[i] == '\t',
        forall|i: int| 0 <= i < room.len() ==> #[trigger] room[i] == ' ' || room[i] == '\t',
        !name.contains('"'),
        name_word_first_at(
            head + (seq!['"', 'n', 'a', 'm', 'e', '"'] + gap + seq![':'] + room + seq!['"'] + name),
            head.len() as int,
        ),
    ensures
        model_names(
            head + (seq!['"', 'n', 'a', 'm', 'e', '"'] + gap + seq![':'] + room + seq!['"'] + name),
        ) == Seq::<Seq<char>>::empty(),
{
    let k = head.len() as int;
    let opened = head + (seq!['"', 'n', 'a', 'm', 'e', '"'] + gap + seq![':'] + room + seq!['"']
        + name);
    lemma_name_word_is_found(opened, k);
    let from_string = seq!['"'] + name;
    let from_colon = seq![':'] + (room + from_string);
    assert(opened.skip(k + 6) =~= gap + from_colon);
    lemma_skip_blanks_over(gap, from_colon);
    assert(from_colon.drop_first() =~= room + from_string);
    lemma_skip_blanks_over(room, from_string);
    assert(from_string.drop_first() =~= name);
    lemma_find(name, quote());
    if find(name, quote()) is Some {
        let end = find(name, quote())->0;
        assert(name.subrange(end, end + 1)[0] == name[end]);
        assert(name.contains('"'));
    }
}

/// The word `name` without a colon behind it, or with a colon but no quote behind that, names
/// nothing; the search goes on at what stands there instead.
#[verifier::spinoff_prover]
#[verifier::rlimit(50)]
pub proof fn law_name_word_alone_is_passed_over(
    head: Seq<char>,
    gap: Seq<char>,
    room: Seq<char>,
    rest: Seq<char>,
)
    requires
        forall|i: int| 0 <= i < gap.len() ==> #[trigger] gap[i] == ' ' || gap[i] == '\t',
        forall|i: int| 0 <= i < room.len() ==> #[trigger] room[i] == ' ' || room[i] == '\t',
        rest.len() > 0 ==> rest[0] != ' ' && rest[0] != '\t',
    ensures
        ({
            let bare = head + seq!['"', 'n', 'a', 'm', 'e', '"'] + gap + rest;
            let keyed = head + seq!['"', 'n', 'a', 'm', 'e', '"'] + gap + seq![':'] + room + rest;
            &&& name_word_first_at(bare, head.len() as int) && (rest.len() == 0 || rest[0] != ':')
                ==> model_names(bare) == model_names(rest)
            &&& name_word_first_at(keyed, head.len() as int) && (rest.len() == 0 || rest[0] != '"')
                ==> model_names(keyed) == model_names(rest)
        }),
{
    let k = head.len() as int;
    let bare = head + seq!['"', 'n', 'a', 'm', 'e', '"'] + gap + rest;
    let keyed = head + seq!['"', 'n', 'a', 'm', 'e', '"'] + gap + seq![':'] + room + rest;
    if name_word_first_at(bare, k) {
        lemma_name_word_is_found(bare, k);
        assert(bare.skip(k + 6) =~= gap + rest);
        lemma_skip_blanks_over(gap, rest);
    }
    if name_word_first_at(keyed, k) {
        lemma_name_word_is_found(keyed, k);
        let from_colon = seq![':'] + (room + rest);
        assert(keyed.skip(k + 6) =~= gap + from_colon);
        lemma_skip_blanks_over(gap, from_colon);
        assert(from_colon.drop_first() =~= room + rest);
        lemma_skip_blanks_over(room, rest);
    }
}

/// Ollama's label is its names in order, neighbours that are equal written once, with a plus
/// between each two; a single name is the label. Only where no name is found is the monitor said
/// to be idle, unless a model is named so.
#[verifier::spinoff_prover]
#[verifier::rlimit(50)]
pub proof fn law_ollama_label_lists_the_names(reply: Seq<char>)
    ensures
        ({
            let names = model_names(reply);
            let label = ollama_report(reply).0;
            &&& names.len() > 0 ==> label == joined(deduped(names), " + "@)
            &&& names.len() == 1 ==> label == names[0]
            &&& names.len() == 2 && names[0] == names[1] ==> label == names[0]
            &&& names.len() == 2 && names[0] != names[1] ==> label == names[0] + " + "@ + names[1]
            &&& names.len() == 0 ==> label == "idle — nothing in VRAM"@
            &&& names.len() > 0 && !names.contains("idle — nothing in VRAM"@) ==> label
                != "idle — nothing in VRAM"@
        }),
{
    reveal_strlit(" + ");
    reveal_strlit("idle — nothing in VRAM");
    let names = model_names(reply);
    let label = ollama_report(reply).0;
    let idle = "idle — nothing in VRAM"@;
    let plus = " + "@;
    let shown = deduped(names);
    if names.len() > 0 {
        lemma_dedup_keeps_entries(names, names.last());
        assert(names[names.len() - 1] == names.last());
        if names.len() == 1 {
            assert(names == seq![names[0]]);
            law_dedup_drops_repeats(names, names[0]);
            law_join_is_made_of_its_parts(names[0], names, names, plus);
        }
        if names.len() == 2 {
            let one = seq![names[0]];
            assert(one.push(names[1]) == names);
            law_dedup_drops_repeats(one, names[1]);
            law_dedup_drops_repeats(one, names[0]);
            law_join_is_made_of_its_parts(names[0], one, seq![names[1]], plus);
            law_join_is_made_of_its_parts(names[1], one, seq![names[1]], plus);
            assert(one + seq![names[1]] == names);
        }
        if label == idle {
            if shown.len() == 1 {
                assert(shown == seq![shown[0]]);
                law_join_is_made_of_its_parts(shown[0], shown, shown, plus);
                assert(names.contains(idle));
            } else {
                let front = shown.drop_last();
                assert(front + seq![shown.last()] == shown);
                law_join_is_made_of_its_parts(shown.last(), front, seq![shown.last()], plus);
                let at = joined(front, plus).len() + 1;
                assert(label[at as int] == '+');
                assert(idle.len() == 22);
                let (a, b) = (idle.take(11), idle.skip(11));
                assert(a[0] != '+' && a[1] != '+' && a[2] != '+' && a[3] != '+' && a[4] != '+'
                    && a[5] != '+' && a[6] != '+' && a[7] != '+' && a[8] != '+' && a[9] != '+'
                    && a[10] != '+');
                assert(b[0] != '+' && b[1] != '+' && b[2] != '+' && b[3] != '+' && b[4] != '+'
                    && b[5] != '+' && b[6] != '+' && b[7] != '+' && b[8] != '+' && b[9] != '+'
                    && b[10] != '+');
                assert(at < 11 ==> idle[at as int] == a[at as int]);
                assert(11 <= at ==> idle[at as int] == b[at - 11]);
            }
        }
    }
}

/// Of a model that Ollama names, its process holds the name and nothing else that is known: no
/// process id and no memory.
pub proof fn law_ollama_process_is_only_named(reply: Seq<char>, i: int)
    requires
        0 <= i < model_names(reply).len(),
    ensures
        ollama_report(reply).1.len() == model_names(reply).len(),
        ollama_report(reply).1[i].name == model_names(reply)[i],
        ollama_report(reply).1[i].model == model_names(reply)[i],
        ollama_report(reply).1[i].pid == 0,
        ollama_report(reply).1[i].used_memory_mb is None,
{
}

/// A digit behind some digits counts the number before it ten times, and itself once.
pub proof fn law_decimal_counts_in_tens(digits: Seq<char>, digit: char)
    requires
        48 <= digit as int <= 57,
    ensures
        decimal(Seq::empty()) == 0,
        decimal(digits.push(digit)) == 10 * decimal(digits) + (digit as int - 48),
{
    assert(digits.push(digit).drop_last() == digits);
}

/// A process id is read as the number that it writes, with or without a plus sign in front; one
/// that does not fit in 32 bits is not known.
pub proof fn law_process_id_is_read(digits: Seq<char>)
    requires
        digits.len() > 0,
        forall|i: int| 0 <= i < digits.len() ==> 48 <= (#[trigger] digits[i]) as int <= 57,
    ensures
        ({
            let id = if decimal(digits) <= 4294967295 {
                decimal(digits)
            } else {
                0
            };
            &&& pid_of(digits) == id
            &&& pid_of(seq!['+'] + digits) == id
        }),
{
    assert(digits[0] != '+');
    assert((seq!['+'] + digits).drop_first() == digits);
    assert(forall|i: int| 0 <= i < digits.len() ==> is_digit(#[trigger] digits[i]));
}

/// A text that is empty, a plus sign alone, or holds anything but digits behind an optional plus
/// sign writes no process id.
pub proof fn law_other_text_is_no_process_id(text: Seq<char>, i: int)
    requires
        text.len() == 0 || text == seq!['+'] || {
            &&& 0 <= i < text.len()
            &&& !(48 <= text[i] as int <= 57)
            &&& i > 0 || text[i] != '+'
        },
    ensures
        pid_of(text) == 0,
{
    let digits = unsigned_digits(text);
    if text.len() > 0 && text != seq!['+'] {
        let at = if starts(text, '+') {
            i - 1
        } else {
            i
        };
        assert(digits[at] == text[i]);
        assert(!is_digit(digits[at]));
    } else if text == seq!['+'] {
        assert(text[0] == '+');
    }
}

/// A line of the process list with at least three fields is a process: the first field is its id,
/// the second its path, of which the last part is shown, and the third its memory. A line with
/// fewer is none.
pub proof fn law_process_line_is_read(
    cells: Seq<(Seq<char>, Seq<char>, Seq<char>)>,
    few: Seq<Seq<char>>,
)
    requires
        cells.len() >= 3,
        forall|i: int|
            0 <= i < cells.len() ==> is_room((#[trigger] cells[i]).0) && is_field(cells[i].1)
                && is_room(cells[i].2),
        0 < few.len() < 3,
        forall|i: int| 0 <= i < few.len() ==> !(#[trigger] few[i]).contains(','),
    ensures
        app_line(line_of(cells)) matches Some(p) && {
            &&& p.pid == pid_of(cells[0].1)
            &&& p.name == after_last(cells[1].1, '/')
            &&& p.model == after_last(cells[1].1, '/')
            &&& p.used_memory_mb == Some(cells[2].1)
        },
        app_line(joined(few, seq![','])) is None,
{
    law_fields_are_read_back(cells);
    let texts = cells.map_values(|cell: (Seq<char>, Seq<char>, Seq<char>)| cell.1);
    assert(texts[0] == cells[0].1 && texts[1] == cells[1].1 && texts[2] == cells[2].1);
    law_join_then_split(few, ',');
    assert(fields(joined(few, seq![','])).len() == few.len());
}

/// Each line of the process list is read on its own, and the processes come in the order of
/// their lines.
pub proof fn law_process_lines_are_read_in_order(
    a: Seq<Seq<char>>,
    b: Seq<Seq<char>>,
    line: Seq<char>,
)
    ensures
        app_lines(Seq::empty()) == Seq::<ProcessFacts>::empty(),
        app_lines(seq![line]) == match app_line(line) {
            Some(process) => seq![process],
            None => Seq::<ProcessFacts>::empty(),
        },
        app_lines(a + b) == app_lines(a) + app_lines(b),
    decreases b.len(),
{
    assert(seq![line].drop_last() == Seq::<Seq<char>>::empty());
    assert(app_lines(seq![line].drop_last()) == Seq::<ProcessFacts>::empty());
    if b.len() == 0 {
        assert(a + b == a);
        assert(app_lines(a) + app_lines(b) == app_lines(a));
    } else {
        assert((a + b).drop_last() == a + b.drop_last());
        law_process_lines_are_read_in_order(a, b.drop_last(), line);
        assert(app_lines(a + b) == app_lines(a) + app_lines(b));
    }
}

/// The processes that are reported are those of the report's lines, and the models that the label
/// is made of are theirs; where there is no process, the label says so.
pub proof fn law_process_report_follows_its_lines(line: Seq<char>, rest: Seq<char>)
    requires
        !line.contains('\n'),
        line.len() == 0 || line.last() != '\r',
    ensures
        ({
            let first = match app_line(line) {
                Some(process) => seq![process],
                None => Seq::<ProcessFacts>::empty(),
            };
            let processes = first + apps_report(rest).1;
            let models = Seq::new(processes.len(), |i: int| processes[i].model);
            &&& apps_report(line + seq!['\n'] + rest).1 == processes
            &&& apps_report(line + seq!['\r', '\n'] + rest).1 == processes
            &&& apps_report(Seq::empty()).1 == Seq::<ProcessFacts>::empty()
            &&& processes.len() == 0 ==> apps_report(line + seq!['\n'] + rest).0
                == "idle — no model"@
            &&& processes.len() > 0 ==> apps_report(line + seq!['\n'] + rest).0 == joined(
                deduped(sorted(models)),
                " + "@,
            )
        }),
{
    law_first_line(line, rest);
    law_process_lines_are_read_in_order(seq![line], line_seq(rest), line);
    crate::text::law_last_line(Seq::empty());
    let processes = apps_report(line + seq!['\n'] + rest).1;
    let models = Seq::new(processes.len(), |i: int| processes[i].model);
    assert(models_of(processes) =~= models);
}

/// A last line without an end counts like any other. Where no line of a report is a process, the
/// label says that there is no model, and else it is made of the models of the processes.
pub proof fn law_process_label_follows_the_processes(report: Seq<char>, tail: Seq<char>)
    requires
        !tail.contains('\n'),
    ensures
        apps_report(tail).1 == match app_line(tail) {
            Some(process) => seq![process],
            None => Seq::<ProcessFacts>::empty(),
        },
        ({
            let processes = apps_report(report).1;
            let models = Seq::new(processes.len(), |i: int| processes[i].model);
            &&& processes.len() == 0 ==> apps_report(report).0 == "idle — no model"@
            &&& processes.len() > 0 ==> apps_report(report).0 == joined(
                deduped(sorted(models)),
                " + "@,
            )
        }),
{
    crate::text::law_last_line(tail);
    law_process_lines_are_read_in_order(seq![tail], seq![tail], tail);
    if tail.len() == 0 {
        let few = seq![tail];
        law_join_is_made_of_its_parts(tail, few, few, seq![',']);
        law_join_then_split(few, ',');
        assert(fields(tail).len() == 1);
    }
    let processes = apps_report(report).1;
    let models = Seq::new(processes.len(), |i: int| processes[i].model);
    assert(models_of(processes) =~= models);
}

/// A report is handed on as it is, with the facts of its processes.
pub proof fn law_report_is_handed_on(
    label: String,
    processes: Vec<ProcessInfo>,
    outcome: CommandOutcome,
)
    ensures
        report_result(Ok((label, processes))) == Ok::<(Seq<char>, Seq<ProcessFacts>), Seq<char>>(
            (label@, facts(processes@)),
        ),
        report_result(Err(label)) == Err::<(Seq<char>, Seq<ProcessFacts>), Seq<char>>(label@),
        match outcome {
            CommandOutcome::NotStarted(reason) => fallback_report(outcome) == Err::<
                (Seq<char>, Seq<ProcessFacts>),
                Seq<char>,
            >("nvidia-smi failed: "@ + reason@),
            CommandOutcome::Finished { success: true, stdout, .. } => fallback_report(outcome)
                == Ok::<(Seq<char>, Seq<ProcessFacts>), Seq<char>>(
                apps_report(read_text(stdout@)),
            ),
            CommandOutcome::Finished { success: false, stderr, .. } => fallback_report(outcome)
                == Err::<(Seq<char>, Seq<ProcessFacts>), Seq<char>>(trimmed(read_text(stderr@))),
        },
{
}

} // verus!
