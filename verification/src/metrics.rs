use vstd::prelude::*;

use crate::text::{
    chars_of, lines, lines_of, parse_u64, parse_unsigned, starts_with, starts_with_exec, views,
    words, words_of,
};

verus! {

/// The number in the second whitespace-separated field of a line, or 0 when
/// there is none or it is no `u64`.
pub open spec fn second_field_number(line: Seq<char>) -> u64 {
    let ws = words(line);
    if ws.len() >= 2 {
        match parse_unsigned(ws[1], 10, u64::MAX as nat) {
            Some(v) => v as u64,
            None => 0,
        }
    } else {
        0
    }
}

/// The number on the last of the lines that starts with `key`, or 0.
pub open spec fn last_keyed_number(ls: Seq<Seq<char>>, key: Seq<char>) -> u64
    decreases ls.len(),
{
    if ls.len() == 0 {
        0
    } else if starts_with(ls.last(), key) {
        second_field_number(ls.last())
    } else {
        last_keyed_number(ls.drop_last(), key)
    }
}

/// Used and total memory in MiB, as `/proc/meminfo` gives them in KiB: the
/// used amount is `MemTotal` less `MemAvailable` (0 when that would be negative).
pub open spec fn memory_mb(content: Seq<char>) -> (u64, u64) {
    let total = last_keyed_number(lines(content), "MemTotal:"@);
    let available = last_keyed_number(lines(content), "MemAvailable:"@);
    let used: u64 = if total >= available {
        (total - available) as u64
    } else {
        0
    };
    ((used / 1024) as u64, (total / 1024) as u64)
}

fn second_field_number_exec(line: &Vec<char>) -> (r: u64)
    ensures
        r == second_field_number(line@),
{
    let ws = words_of(line);
    if ws.len() >= 2 {
        proof {
            assert(views(ws@)[1] == ws@[1]@);
        }
        match parse_u64(&ws[1]) {
            Some(v) => v,
            None => 0,
        }
    } else {
        0
    }
}

/// Reads used and total memory, in MiB, out of the text of `/proc/meminfo`.
pub fn parse_meminfo(content: &str) -> (r: (u64, u64))
    ensures
        r == memory_mb(content@),
{
    let chars = chars_of(content);
    let ls = lines_of(&chars);
    let ghost lv = views(ls@);
    let total_key = chars_of("MemTotal:");
    let avail_key = chars_of("MemAvailable:");
    let mut total: u64 = 0;
    let mut available: u64 = 0;
    let mut i: usize = 0;
    proof {
        assert(lv.take(0) =~= Seq::<Seq<char>>::empty());
    }
    while i < ls.len()
        invariant
            i <= ls@.len(),
            lv == views(ls@),
            total_key@ == "MemTotal:"@,
            avail_key@ == "MemAvailable:"@,
            total == last_keyed_number(lv.take(i as int), "MemTotal:"@),
            available == last_keyed_number(lv.take(i as int), "MemAvailable:"@),
        decreases ls@.len() - i,
    {
        proof {
            assert(lv.take(i + 1).drop_last() =~= lv.take(i as int));
            assert(lv.take(i + 1).last() == ls@[i as int]@);
        }
        let is_total = starts_with_exec(&ls[i], &total_key);
        let is_avail = starts_with_exec(&ls[i], &avail_key);
        if is_total {
            total = second_field_number_exec(&ls[i]);
        } else if is_avail {
            available = second_field_number_exec(&ls[i]);
        }
        proof {
            if is_total && is_avail {
                // No line starts with both keys: they differ at their fourth character.
                reveal_strlit("MemTotal:");
                reveal_strlit("MemAvailable:");
                assert(ls@[i as int]@[3] == "MemTotal:"@[3]);
                assert(ls@[i as int]@[3] == "MemAvailable:"@[3]);
            }
        }
        i = i + 1;
    }
    proof {
        assert(lv.take(i as int) =~= lv);
    }
    let used = total.saturating_sub(available);
    (used / 1024, total / 1024)
}

/// The numbers among the given fields, in order (fields that are no `u64` are left out).
pub open spec fn numbers_among(fields: Seq<Seq<char>>) -> Seq<u64>
    decreases fields.len(),
{
    if fields.len() == 0 {
        seq![]
    } else {
        let rest = numbers_among(fields.drop_last());
        match parse_unsigned(fields.last(), 10, u64::MAX as nat) {
            Some(v) => rest.push(v as u64),
            None => rest,
        }
    }
}

/// The sum of a sequence of counters.
pub open spec fn sum(s: Seq<u64>) -> int
    decreases s.len(),
{
    if s.len() == 0 {
        0
    } else {
        sum(s.drop_last()) + s.last()
    }
}

/// The counters on the first line of `/proc/stat` (the `cpu` line), after its label.
pub open spec fn cpu_counters(content: Seq<char>) -> Seq<u64> {
    let ls = lines(content);
    let first = if ls.len() > 0 {
        ls[0]
    } else {
        seq![]
    };
    let ws = words(first);
    if ws.len() > 0 {
        numbers_among(ws.skip(1))
    } else {
        seq![]
    }
}

/// Reads the idle time and the total time out of the text of `/proc/stat`: the
/// fourth counter of the `cpu` line and the sum of all its counters, or
/// `(0, 1)` when it has fewer than four counters. `None` when the sum does not
/// fit in a `u64` (where the sum would overflow).
pub fn parse_cpu_stat(content: &str) -> (r: Option<(u64, u64)>)
    ensures
        cpu_counters(content@).len() < 4 ==> r == Some((0u64, 1u64)),
        cpu_counters(content@).len() >= 4 && sum(cpu_counters(content@)) <= u64::MAX ==> r == Some(
            (cpu_counters(content@)[3], sum(cpu_counters(content@)) as u64),
        ),
        cpu_counters(content@).len() >= 4 && sum(cpu_counters(content@)) > u64::MAX ==> r is None,
{
    let chars = chars_of(content);
    let ls = lines_of(&chars);
    let first: Vec<char> = if ls.len() > 0 {
        proof {
            assert(views(ls@)[0] == ls@[0]@);
        }
        ls[0].clone()
    } else {
        Vec::new()
    };
    let ws = words_of(&first);
    let mut nums: Vec<u64> = Vec::new();
    if ws.len() > 0 {
        let ghost fs = views(ws@).skip(1);
        let mut i: usize = 1;
        proof {
            assert(fs.take(0) =~= Seq::<Seq<char>>::empty());
        }
        while i < ws.len()
            invariant
                1 <= i <= ws@.len(),
                fs == views(ws@).skip(1),
                nums@ == numbers_among(fs.take(i - 1)),
            decreases ws@.len() - i,
        {
            proof {
                assert(fs.take(i as int).drop_last() =~= fs.take(i - 1));
                assert(fs.take(i as int).last() == ws@[i as int]@);
            }
            match parse_u64(&ws[i]) {
                Some(v) => nums.push(v),
                None => {},
            }
            i = i + 1;
        }
        proof {
            assert(fs.take(i - 1) =~= fs);
        }
    }
    proof {
        if ws@.len() == 0 {
            assert(nums@ =~= Seq::<u64>::empty());
        }
        assert(nums@ == cpu_counters(content@));
    }
    if nums.len() < 4 {
        return Some((0, 1));
    }
    let mut total: u64 = 0;
    let mut k: usize = 0;
    proof {
        assert(nums@.take(0) =~= Seq::<u64>::empty());
    }
    while k < nums.len()
        invariant
            k <= nums@.len(),
            nums@.len() >= 4,
            nums@ == cpu_counters(content@),
            total == sum(nums@.take(k as int)),
        decreases nums@.len() - k,
    {
        proof {
            assert(nums@.take(k + 1).drop_last() =~= nums@.take(k as int));
        }
        match total.checked_add(nums[k]) {
            Some(t) => {
                total = t;
            },
            None => {
                proof {
                    lemma_sum_prefix(nums@, k + 1);
                }
                return None;
            },
        }
        k = k + 1;
    }
    proof {
        assert(nums@.take(k as int) =~= nums@);
    }
    Some((nums[3], total))
}

proof fn lemma_sum_prefix(s: Seq<u64>, k: int)
    requires
        0 <= k <= s.len(),
    ensures
        sum(s.take(k)) <= sum(s),
    decreases s.len() - k,
{
    if k < s.len() {
        lemma_sum_prefix(s, k + 1);
        assert(s.take(k + 1).drop_last() =~= s.take(k));
    } else {
        assert(s.take(k) =~= s);
    }
}


/// The used memory never exceeds the total memory.
pub proof fn law_used_memory_within_total(content: Seq<char>)
    ensures
        memory_mb(content).0 <= memory_mb(content).1,
{
    let total = last_keyed_number(lines(content), "MemTotal:"@);
    let available = last_keyed_number(lines(content), "MemAvailable:"@);
    if total >= available {
        let used = (total - available) as u64;
        assert(used / 1024 <= total / 1024) by (nonlinear_arith)
            requires
                used <= total,
        ;
    }
}

/// The idle time never exceeds the total time.
pub proof fn law_idle_within_total(content: Seq<char>)
    requires
        cpu_counters(content).len() >= 4,
    ensures
        cpu_counters(content)[3] <= sum(cpu_counters(content)),
{
    lemma_element_within_sum(cpu_counters(content), 3);
}

proof fn lemma_element_within_sum(s: Seq<u64>, k: int)
    requires
        0 <= k < s.len(),
    ensures
        s[k] <= sum(s),
        sum(s) >= 0,
    decreases s.len(),
{
    lemma_sum_nonneg(s.drop_last());
    if k < s.len() - 1 {
        lemma_element_within_sum(s.drop_last(), k);
    }
}

proof fn lemma_sum_nonneg(s: Seq<u64>)
    ensures
        sum(s) >= 0,
    decreases s.len(),
{
    if s.len() > 0 {
        lemma_sum_nonneg(s.drop_last());
    }
}

} // verus!
