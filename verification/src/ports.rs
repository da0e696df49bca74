use vstd::prelude::*;

use crate::text::{
    chars_of, contains, contains_exec, find, find_exec, last_index_of, last_index_of_exec,
    lemma_find_from_range, lines, lines_of, parse_u16, parse_unsigned, second_piece,
    second_piece_exec, skip_vec, spells, string_of, take_vec, text, trim, trim_vec, views,
    words, words_of,
};

verus! {

/// A port that some process listens on.
#[derive(Debug, PartialEq, Eq)]
pub struct PortEntry {
    pub port: u16,
    /// The name of the listening process, or `unknown`.
    pub process: String,
}

impl View for PortEntry {
    type V = (u16, Seq<char>);

    open spec fn view(&self) -> (u16, Seq<char>) {
        (self.port, self.process@)
    }
}

/// The port that one whitespace-separated field of an `ss` line names: the
/// decimal number after its last `:`.
pub open spec fn port_of_field(field: Seq<char>) -> Option<nat> {
    match last_index_of(field, ':') {
        Some(k) => parse_unsigned(field.skip(k + 1), 10, u16::MAX as nat),
        None => None,
    }
}

/// The port named by the first field that names one.
pub open spec fn first_port(fields: Seq<Seq<char>>) -> Option<nat>
    decreases fields.len(),
{
    if fields.len() == 0 {
        None
    } else {
        match port_of_field(fields[0]) {
            Some(p) => Some(p),
            None => first_port(fields.drop_first()),
        }
    }
}

/// The name of the listening process in an `ss` line: the text between the first
/// two double quotes after `users:(`, `unknown` when they are not there, and the
/// last field of the line when there is no `users:(` at all.
pub open spec fn process_name(line: Seq<char>) -> Seq<char> {
    match find(line, "users:("@) {
        Some(u) => {
            let section = line.skip(u);
            match find(section, seq!['"']) {
                Some(q) => {
                    let after = section.skip(q + 1);
                    match find(after, seq!['"']) {
                        Some(e) => after.take(e),
                        None => "unknown"@,
                    }
                },
                None => "unknown"@,
            }
        },
        None => words(line).last(),
    }
}

/// What one line of `ss -tlnp` output says is listening, if anything.
pub open spec fn port_of_ss_line(line: Seq<char>) -> Option<(u16, Seq<char>)> {
    match first_port(words(line)) {
        Some(p) => Some((p as u16, process_name(line))),
        None => None,
    }
}

fn port_of_field_exec(field: &Vec<char>) -> (r: Option<u16>)
    ensures
        match port_of_field(field@) {
            Some(p) => r == Some(p as u16) && p <= u16::MAX,
            None => r is None,
        },
{
    match last_index_of_exec(field, ':') {
        Some(k) => {
            let rest = skip_vec(field, k + 1);
            parse_u16(&rest, 10)
        },
        None => None,
    }
}

fn process_name_exec(line: &Vec<char>, fields: &Vec<Vec<char>>) -> (r: String)
    requires
        views(fields@) == words(line@),
        fields@.len() > 0,
    ensures
        r@ == process_name(line@),
{
    let users = chars_of("users:(");
    let quote = vec!['"'];
    proof {
        assert(quote@ =~= seq!['"']);
    }
    match find_exec(line, &users) {
        Some(u) => {
            let section = skip_vec(line, u);
            proof {
                lemma_find_from_range(line@, users@, 0);
            }
            match find_exec(&section, &quote) {
                Some(q) => {
                    proof {
                        lemma_find_from_range(section@, quote@, 0);
                    }
                    let after = skip_vec(&section, q + 1);
                    match find_exec(&after, &quote) {
                        Some(e) => {
                            proof {
                                lemma_find_from_range(after@, quote@, 0);
                            }
                            string_of(&take_vec(&after, e))
                        },
                        None => text("unknown"),
                    }
                },
                None => text("unknown"),
            }
        },
        None => {
            proof {
                assert(views(fields@).last() == fields@[fields@.len() - 1]@);
            }
            string_of(&fields[fields.len() - 1])
        },
    }
}

fn first_port_exec(fields: &Vec<Vec<char>>) -> (r: Option<u16>)
    ensures
        match first_port(views(fields@)) {
            Some(p) => r == Some(p as u16),
            None => r is None,
        },
        r is Some ==> fields@.len() > 0,
{
    let ghost fv = views(fields@);
    let mut i: usize = 0;
    proof {
        assert(fv.skip(0) =~= fv);
    }
    while i < fields.len()
        invariant
            i <= fields@.len(),
            fv == views(fields@),
            first_port(fv) == first_port(fv.skip(i as int)),
        decreases fields@.len() - i,
    {
        proof {
            assert(fv.skip(i as int).drop_first() =~= fv.skip(i + 1));
            assert(fv.skip(i as int)[0] == fields@[i as int]@);
        }
        match port_of_field_exec(&fields[i]) {
            Some(p) => {
                return Some(p);
            },
            None => {},
        }
        i = i + 1;
    }
    None
}

/// Reads one line of `ss -tlnp` output, such as
/// `LISTEN 0 128 0.0.0.0:3001 ... users:(("github-cli",pid=1,fd=7))`: the port is
/// the number after the last `:` of the first field that ends so, and the
/// process is the quoted name in the `users:(` section.
pub fn extract_port(line: &str) -> (r: Option<PortEntry>)
    ensures
        match port_of_ss_line(line@) {
            Some(v) => r matches Some(e) && e@ == v,
            None => r is None,
        },
{
    let chars = chars_of(line);
    let fields = words_of(&chars);
    match first_port_exec(&fields) {
        Some(port) => {
            let process = process_name_exec(&chars, &fields);
            Some(PortEntry { port, process })
        },
        None => None,
    }
}

/// The listening port of one line of `/proc/net/tcp` (or `tcp6`): the fourth
/// field must be the state `0A`, and the port is the hexadecimal number after
/// the first `:` of the second field, when it is not 0.
pub open spec fn port_of_tcp_line(line: Seq<char>) -> Option<nat> {
    let cols = words(line);
    if cols.len() >= 4 && cols[3] == "0A"@ {
        match second_piece(cols[1], ':') {
            Some(h) => match parse_unsigned(h, 16, u16::MAX as nat) {
                Some(p) => if p > 0 {
                    Some(p)
                } else {
                    None
                },
                None => None,
            },
            None => None,
        }
    } else {
        None
    }
}

/// The listening ports of the given table lines, in order.
pub open spec fn tcp_ports_of_lines(ls: Seq<Seq<char>>) -> Seq<u16>
    decreases ls.len(),
{
    if ls.len() == 0 {
        seq![]
    } else {
        let rest = tcp_ports_of_lines(ls.drop_last());
        match port_of_tcp_line(ls.last()) {
            Some(p) => rest.push(p as u16),
            None => rest,
        }
    }
}

/// The listening ports of a `/proc/net/tcp` table; its first line is the header.
pub open spec fn tcp_ports(content: Seq<char>) -> Seq<u16> {
    let ls = lines(content);
    if ls.len() == 0 {
        seq![]
    } else {
        tcp_ports_of_lines(ls.skip(1))
    }
}

fn port_of_tcp_line_exec(line: &Vec<char>) -> (r: Option<u16>)
    ensures
        match port_of_tcp_line(line@) {
            Some(p) => r == Some(p as u16),
            None => r is None,
        },
{
    let cols = words_of(line);
    proof {
        if cols@.len() >= 4 {
            assert(views(cols@)[3] == cols@[3]@);
            assert(views(cols@)[1] == cols@[1]@);
        }
    }
    if cols.len() >= 4 && spells(&cols[3], "0A") {
        match second_piece_exec(&cols[1], ':') {
            Some(h) => match parse_u16(&h, 16) {
                Some(p) => if p > 0 {
                    Some(p)
                } else {
                    None
                },
                None => None,
            },
            None => None,
        }
    } else {
        None
    }
}

/// Reads the listening ports out of a `/proc/net/tcp` table.
pub fn parse_tcp_table(content: &str) -> (r: Vec<u16>)
    ensures
        r@ == tcp_ports(content@),
{
    let chars = chars_of(content);
    let ls = lines_of(&chars);
    let ghost body = views(ls@).skip(1);
    let mut out: Vec<u16> = Vec::new();
    if ls.len() == 0 {
        return out;
    }
    let mut i: usize = 1;
    proof {
        assert(body.take(0) =~= Seq::<Seq<char>>::empty());
    }
    while i < ls.len()
        invariant
            1 <= i <= ls@.len(),
            body == views(ls@).skip(1),
            out@ == tcp_ports_of_lines(body.take(i - 1)),
        decreases ls@.len() - i,
    {
        proof {
            assert(body.take(i as int).drop_last() =~= body.take(i - 1));
            assert(body.take(i as int).last() == ls@[i as int]@);
        }
        match port_of_tcp_line_exec(&ls[i]) {
            Some(p) => out.push(p),
            None => {},
        }
        i = i + 1;
    }
    proof {
        assert(body.take(i - 1) =~= body);
    }
    out
}

/// The ports seen so far with the new ones appended, each new port only when
/// it is not there yet.
pub open spec fn add_new_ports(seen: Seq<u16>, new: Seq<u16>) -> Seq<u16>
    decreases new.len(),
{
    if new.len() == 0 {
        seen
    } else {
        let prev = add_new_ports(seen, new.drop_last());
        if prev.contains(new.last()) {
            prev
        } else {
            prev.push(new.last())
        }
    }
}

/// The entries of the `ss` lines that mention `LISTEN` and name a port, in order.
pub open spec fn ss_ports_of_lines(ls: Seq<Seq<char>>) -> Seq<(u16, Seq<char>)>
    decreases ls.len(),
{
    if ls.len() == 0 {
        seq![]
    } else {
        let rest = ss_ports_of_lines(ls.drop_last());
        if contains(ls.last(), "LISTEN"@) {
            match port_of_ss_line(ls.last()) {
                Some(e) => rest.push(e),
                None => rest,
            }
        } else {
            rest
        }
    }
}

/// Ports with an unknown process.
pub open spec fn unknown_process(ports: Seq<u16>) -> Seq<(u16, Seq<char>)> {
    ports.map_values(|p: u16| (p, "unknown"@))
}

/// The listening ports: from the `ss` output when it holds anything but
/// whitespace; otherwise from `/proc/net/tcp` and then those of
/// `/proc/net/tcp6` that are not listed yet, each with an unknown process.
pub open spec fn listening_ports(ss: Seq<char>, tcp: Option<Seq<char>>, tcp6: Option<Seq<char>>) -> Seq<(u16, Seq<char>)> {
    if trim(ss).len() > 0 {
        ss_ports_of_lines(lines(ss))
    } else {
        let v4 = match tcp {
            Some(t) => tcp_ports(t),
            None => seq![],
        };
        let all = match tcp6 {
            Some(t) => add_new_ports(v4, tcp_ports(t)),
            None => v4,
        };
        unknown_process(all)
    }
}

fn listed(ports: &Vec<u16>, p: u16) -> (r: bool)
    ensures
        r == ports@.contains(p),
{
    let mut i: usize = 0;
    while i < ports.len()
        invariant
            i <= ports@.len(),
            forall|j: int| 0 <= j < i ==> ports@[j] != p,
        decreases ports@.len() - i,
    {
        if ports[i] == p {
            proof {
                assert(ports@[i as int] == p);
            }
            return true;
        }
        i = i + 1;
    }
    false
}

fn add_new_ports_exec(seen: Vec<u16>, new: &Vec<u16>) -> (r: Vec<u16>)
    ensures
        r@ == add_new_ports(seen@, new@),
{
    let ghost s0 = seen@;
    let mut out = seen;
    let mut i: usize = 0;
    proof {
        assert(new@.take(0) =~= Seq::<u16>::empty());
    }
    while i < new.len()
        invariant
            i <= new@.len(),
            out@ == add_new_ports(s0, new@.take(i as int)),
        decreases new@.len() - i,
    {
        proof {
            assert(new@.take(i + 1).drop_last() =~= new@.take(i as int));
            assert(new@.take(i + 1).last() == new@[i as int]);
        }
        if !listed(&out, new[i]) {
            out.push(new[i]);
        }
        i = i + 1;
    }
    proof {
        assert(new@.take(i as int) =~= new@);
    }
    out
}

/// Gathers the listening ports from the outputs of `ss -tlnp` and, when that
/// says nothing, from the tables `/proc/net/tcp` and `/proc/net/tcp6` (each
/// given when it could be read).
pub fn collect_ports(ss_output: &str, tcp: Option<String>, tcp6: Option<String>) -> (r: Vec<PortEntry>)
    ensures
        r@.map_values(|e: PortEntry| e@) == listening_ports(
            ss_output@,
            match tcp {
                Some(t) => Some(t@),
                None => None,
            },
            match tcp6 {
                Some(t) => Some(t@),
                None => None,
            },
        ),
{
    let ss = chars_of(ss_output);
    let trimmed = trim_vec(&ss);
    let mut out: Vec<PortEntry> = Vec::new();
    if trimmed.len() > 0 {
        let ls = lines_of(&ss);
        let ghost lv = views(ls@);
        let mut i: usize = 0;
        proof {
            assert(lv.take(0) =~= Seq::<Seq<char>>::empty());
            assert(out@.map_values(|e: PortEntry| e@) =~= Seq::<(u16, Seq<char>)>::empty());
        }
        let listen = chars_of("LISTEN");
        while i < ls.len()
            invariant
                i <= ls@.len(),
                lv == views(ls@),
                listen@ == "LISTEN"@,
                out@.map_values(|e: PortEntry| e@) == ss_ports_of_lines(lv.take(i as int)),
            decreases ls@.len() - i,
        {
            proof {
                assert(lv.take(i + 1).drop_last() =~= lv.take(i as int));
                assert(lv.take(i + 1).last() == ls@[i as int]@);
            }
            if contains_exec(&ls[i], &listen) {
                let line = string_of(&ls[i]);
                match extract_port(line.as_str()) {
                    Some(e) => {
                        let ghost old_out = out@;
                        out.push(e);
                        proof {
                            assert(out@.map_values(|e: PortEntry| e@) =~= old_out.map_values(
                                |e: PortEntry| e@,
                            ).push(e@));
                        }
                    },
                    None => {},
                }
            }
            i = i + 1;
        }
        proof {
            assert(lv.take(i as int) =~= lv);
        }
        return out;
    }
    let v4: Vec<u16> = match &tcp {
        Some(t) => parse_tcp_table(t.as_str()),
        None => Vec::new(),
    };
    let all: Vec<u16> = match &tcp6 {
        Some(t) => {
            let v6 = parse_tcp_table(t.as_str());
            add_new_ports_exec(v4, &v6)
        },
        None => v4,
    };
    let ghost target = unknown_process(all@);
    let mut i: usize = 0;
    proof {
        assert(out@.map_values(|e: PortEntry| e@) =~= target.take(0));
    }
    while i < all.len()
        invariant
            i <= all@.len(),
            target == unknown_process(all@),
            out@.map_values(|e: PortEntry| e@) == target.take(i as int),
        decreases all@.len() - i,
    {
        let ghost old_out = out@;
        out.push(PortEntry { port: all[i], process: text("unknown") });
        proof {
            assert(out@.map_values(|e: PortEntry| e@) =~= old_out.map_values(|e: PortEntry| e@).push((all@[i as int], "unknown"@)));
            assert(target.take(i + 1) =~= target.take(i as int).push(target[i as int]));
        }
        i = i + 1;
    }
    proof {
        assert(target.take(i as int) =~= target);
    }
    out
}


/// Every port read from a `/proc/net/tcp` table is a real port (not 0).
pub proof fn law_tcp_ports_nonzero(content: Seq<char>, k: int)
    requires
        0 <= k < tcp_ports(content).len(),
    ensures
        tcp_ports(content)[k] > 0,
{
    let ls = lines(content);
    lemma_tcp_ports_nonzero(ls.skip(1), k);
}

proof fn lemma_tcp_ports_nonzero(ls: Seq<Seq<char>>, k: int)
    requires
        0 <= k < tcp_ports_of_lines(ls).len(),
    ensures
        tcp_ports_of_lines(ls)[k] > 0,
    decreases ls.len(),
{
    let rest = tcp_ports_of_lines(ls.drop_last());
    if k < rest.len() {
        lemma_tcp_ports_nonzero(ls.drop_last(), k);
    }
}

/// Adding the ports of a second table keeps the first list as it is, and every
/// port added after it is new: it is not in the first list nor added twice.
pub proof fn law_added_ports_are_new(seen: Seq<u16>, new: Seq<u16>)
    ensures
        add_new_ports(seen, new).len() >= seen.len(),
        add_new_ports(seen, new).take(seen.len() as int) == seen,
        forall|i: int, j: int|
            0 <= i < j < add_new_ports(seen, new).len() && j >= seen.len() ==> add_new_ports(seen, new)[i]
                != add_new_ports(seen, new)[j],
    decreases new.len(),
{
    if new.len() > 0 {
        law_added_ports_are_new(seen, new.drop_last());
        let prev = add_new_ports(seen, new.drop_last());
        if !prev.contains(new.last()) {
            let cur = prev.push(new.last());
            assert(cur.take(seen.len() as int) =~= prev.take(seen.len() as int));
            assert forall|i: int, j: int| 0 <= i < j < cur.len() && j >= seen.len() implies cur[i] != cur[j] by {
                if j == cur.len() - 1 {
                    assert(cur[i] == prev[i]);
                    if cur[i] == cur[j] {
                        assert(prev.contains(new.last()));
                    }
                } else {
                    assert(cur[i] == prev[i] && cur[j] == prev[j]);
                }
            }
        }
    } else {
        assert(seen.take(seen.len() as int) =~= seen);
    }
}


/// Whether the port tables of `/proc/net` are read: only when the `ss` output
/// holds nothing but whitespace.
pub fn needs_proc_tables(ss_output: &str) -> (r: bool)
    ensures
        r == (trim(ss_output@).len() == 0),
{
    let ss = chars_of(ss_output);
    let trimmed = trim_vec(&ss);
    trimmed.len() == 0
}

} // verus!
