//! Resource enforcement decisions: what a budget asks of the system, the
//! cgroup v2 limits it turns into, and where the delegated cgroup subtree
//! is. Creating the cgroup and moving a process into it are I/O and
//! happen outside this library.
use vstd::prelude::*;
use vstd::string::*;

use crate::ast::{strings_view, ResourceBudget, ResourceBudgetView};
use crate::text::{decimal, decimal_text, lines, lines_of, owned, parse_u64, parse_u64_spec, split_on, str_chars, strings_of, words, words_of};

verus! {

/// Why a budget cannot be enforced.
#[derive(Debug)]
pub struct ResourceError(String);

impl ResourceError {
    pub fn new(message: String) -> (r: Self)
        ensures
            r@ == message@,
    {
        ResourceError(message)
    }

    /// The text of the error.
    pub fn message(&self) -> (r: &str)
        ensures
            r@ == self@,
    {
        self.0.as_str()
    }
}

impl View for ResourceError {
    type V = Seq<char>;

    closed spec fn view(&self) -> Seq<char> {
        self.0@
    }
}

/// `items` joined with `sep` between consecutive ones.
pub open spec fn join_spec(items: Seq<Seq<char>>, sep: Seq<char>) -> Seq<char>
    decreases items.len(),
{
    if items.len() == 0 {
        Seq::empty()
    } else if items.len() == 1 {
        items[0]
    } else {
        join_spec(items.drop_last(), sep) + sep + items.last()
    }
}

pub open spec fn budget_is_empty(b: ResourceBudgetView) -> bool {
    b.cpu_percent is None && b.ram_percent is None && b.unenforceable.len() == 0
}

/// What a budget asks for: `Ok(false)` when there is nothing to enforce,
/// `Ok(true)` when a cgroup has to enforce CPU or RAM, or the refusal
/// naming every resource that cannot be enforced.
pub open spec fn budget_check_spec(b: ResourceBudgetView) -> Result<bool, Seq<char>> {
    if budget_is_empty(b) {
        Ok(false)
    } else if b.unenforceable.len() > 0 {
        Err(
            "cannot enforce a resource policy for "@ + join_spec(b.unenforceable, ", "@)
                + " \u{2014} Xact only enforces CPU and RAM today."@,
        )
    } else {
        Ok(true)
    }
}

fn join(items: &Vec<String>, sep: &str) -> (r: String)
    ensures
        r@ == join_spec(strings_view(items@), sep@),
{
    let ghost v = strings_view(items@);
    let mut r = String::new();
    let mut i: usize = 0;
    assert(r@ =~= join_spec(v.take(0), sep@));
    while i < items.len()
        invariant
            0 <= i <= items@.len(),
            v == strings_view(items@),
            r@ == join_spec(v.take(i as int), sep@),
        decreases items@.len() - i,
    {
        proof {
            assert(v.take(i + 1).drop_last() =~= v.take(i as int));
            assert(v.take(i + 1).last() == items@[i as int]@);
        }
        if i > 0 {
            r.append(sep);
        } else {
            assert(v.take(1)[0] == items@[0]@);
            assert(r@ =~= Seq::<char>::empty());
        }
        r.append(items[i].as_str());
        i += 1;
    }
    assert(v.take(i as int) =~= v);
    r
}

/// Checks what a budget asks of the system before anything is set up.
pub fn check_budget(budget: &ResourceBudget) -> (r: Result<bool, ResourceError>)
    ensures
        match r {
            Ok(needed) => budget_check_spec(budget@) == Ok::<bool, Seq<char>>(needed),
            Err(e) => budget_check_spec(budget@) == Err::<bool, Seq<char>>(e@),
        },
{
    if budget.is_empty() {
        return Ok(false);
    }
    if budget.unenforceable.len() > 0 {
        let mut m = String::from_str("cannot enforce a resource policy for ");
        let names = join(&budget.unenforceable, ", ");
        m.append(names.as_str());
        m.append(" \u{2014} Xact only enforces CPU and RAM today.");
        return Err(ResourceError(m));
    }
    Ok(true)
}

/// The `cpu.max` line for a CPU cap of `cpu_percent`% of one core: the
/// quota and the period in microseconds, over a 100 ms period.
pub open spec fn cpu_max_spec(cpu_percent: u32) -> Seq<char> {
    decimal((100_000 * cpu_percent / 100) as nat) + " 100000"@
}

pub fn cpu_max_text(cpu_percent: u32) -> (r: String)
    ensures
        r@ == cpu_max_spec(cpu_percent),
{
    let period_us: u64 = 100_000;
    let quota_us: u64 = period_us * (cpu_percent as u64) / 100;
    let mut s = decimal_text(quota_us as u128);
    s.append(" 100000");
    s
}

/// The `memory.max` byte cap for `ram_percent`% of `total_bytes`.
pub fn memory_cap_bytes(total_bytes: u64, ram_percent: u32) -> (r: u64)
    requires
        total_bytes * ram_percent <= u64::MAX,
    ensures
        r == total_bytes * ram_percent / 100,
{
    let product: u64 = total_bytes * (ram_percent as u64);
    product / 100
}

/// Whether `controller` is one of the white-space separated names in
/// `available`, as `cgroup.controllers` lists them.
pub open spec fn controller_available(available: Seq<char>, controller: Seq<char>) -> bool {
    words_of(available).contains(controller)
}

/// Checks that a cgroup controller is available under `path`.
pub fn require_controller(available: &str, controller: &str, path: &str) -> (r: Result<(), ResourceError>)
    ensures
        r is Ok <==> controller_available(available@, controller@),
        r matches Err(e) ==> e@ == "the '"@ + controller@ + "' cgroup controller isn't available under "@
            + path@ + " \u{2014} cannot enforce this resource."@,
{
    let names = words(available);
    let wanted = str_chars(controller);
    let mut i: usize = 0;
    while i < names.len()
        invariant
            0 <= i <= names@.len(),
            wanted@ == controller@,
            strings_of(names@) == words_of(available@),
            forall|j: int| 0 <= j < i ==> (#[trigger] names@[j])@ != controller@,
        decreases names@.len() - i,
    {
        let name = str_chars(names[i].as_str());
        if crate::text::chars_eq(&name, &wanted) {
            assert(strings_of(names@)[i as int] == controller@);
            return Ok(());
        }
        i += 1;
    }
    assert(!words_of(available@).contains(controller@)) by {
        assert forall|j: int| 0 <= j < words_of(available@).len() implies words_of(available@)[j]
            != controller@ by {
            assert(strings_of(names@)[j] == names@[j]@);
        }
    }
    let mut m = String::from_str("the '");
    m.append(controller);
    m.append("' cgroup controller isn't available under ");
    m.append(path);
    m.append(" \u{2014} cannot enforce this resource.");
    Err(ResourceError(m))
}

/// Whether `s` begins with `p`.
pub open spec fn starts_with(s: Seq<char>, p: Seq<char>) -> bool {
    p.is_prefix_of(s)
}

/// Whether `s` ends with `p`.
pub open spec fn ends_with(s: Seq<char>, p: Seq<char>) -> bool {
    p.len() <= s.len() && s.skip(s.len() - p.len()) == p
}

/// The index of the first line that starts with `p`, if any.
pub open spec fn first_line_with(ls: Seq<Seq<char>>, p: Seq<char>) -> Option<int>
    decreases ls.len(),
{
    if ls.len() == 0 {
        None
    } else if starts_with(ls[0], p) {
        Some(0)
    } else {
        match first_line_with(ls.drop_first(), p) {
            Some(i) => Some(i + 1),
            None => None,
        }
    }
}

/// A systemd user service scope: `user@<uid>.service`.
pub open spec fn is_user_service(component: Seq<char>) -> bool {
    starts_with(component, "user@"@) && ends_with(component, ".service"@)
}

/// Walking the components of a cgroup path below `prefix`: the first
/// prefix that ends in a user service scope, if any.
pub open spec fn delegated_prefix(prefix: Seq<char>, components: Seq<Seq<char>>) -> Option<Seq<char>>
    decreases components.len(),
{
    if components.len() == 0 {
        None
    } else {
        let c = components[0];
        if c.len() == 0 {
            delegated_prefix(prefix, components.drop_first())
        } else {
            let next = prefix + seq!['/'] + c;
            if is_user_service(c) {
                Some(next)
            } else {
                delegated_prefix(next, components.drop_first())
            }
        }
    }
}

/// The delegated cgroup v2 subtree that `/proc/self/cgroup` names: the
/// unified hierarchy's path (the line starting `0::`), below
/// `/sys/fs/cgroup`, down to the first `user@<uid>.service` component.
pub open spec fn cgroup_base_spec(contents: Seq<char>) -> Result<Seq<char>, Seq<char>> {
    let ls = lines_of(contents);
    match first_line_with(ls, "0::"@) {
        None => Err("this system is not using the cgroup v2 unified hierarchy"@),
        Some(i) => match delegated_prefix("/sys/fs/cgroup"@, split_on(ls[i].skip(3), '/')) {
            Some(p) => Ok(p),
            None => Err(
                "no delegated cgroup v2 subtree found (expected a systemd user@<uid>.service scope) \u{2014} cannot enforce SPEND/SAVE without one."@,
            ),
        },
    }
}

fn chars_start_with(s: &Vec<char>, p: &str) -> (r: bool)
    ensures
        r == starts_with(s@, p@),
{
    let pc = str_chars(p);
    if pc.len() > s.len() {
        return false;
    }
    let mut i: usize = 0;
    while i < pc.len()
        invariant
            pc@ == p@,
            pc@.len() <= s@.len(),
            0 <= i <= pc@.len(),
            forall|j: int| 0 <= j < i ==> pc@[j] == s@[j],
        decreases pc@.len() - i,
    {
        if pc[i] != s[i] {
            return false;
        }
        i += 1;
    }
    assert(pc@ =~= s@.subrange(0, pc@.len() as int));
    true
}

fn chars_end_with(s: &Vec<char>, p: &str) -> (r: bool)
    ensures
        r == ends_with(s@, p@),
{
    let pc = str_chars(p);
    if pc.len() > s.len() {
        return false;
    }
    let sl = s.len();
    let off = sl - pc.len();
    let mut i: usize = 0;
    while i < pc.len()
        invariant
            sl == s@.len(),
            pc@ == p@,
            off + pc@.len() == s@.len(),
            0 <= i <= pc@.len(),
            forall|j: int| 0 <= j < i ==> pc@[j] == s@[off + j],
        decreases pc@.len() - i,
    {
        assert(off + i < s@.len());
        if pc[i] != s[off + i] {
            assert(s@.skip(off as int)[i as int] != pc@[i as int]);
            return false;
        }
        i += 1;
    }
    assert(s@.skip(off as int) =~= pc@);
    true
}

proof fn lemma_first_line_with(ls: Seq<Seq<char>>, p: Seq<char>)
    ensures
        first_line_with(ls, p) matches Some(i) ==> 0 <= i < ls.len() && starts_with(ls[i], p),
    decreases ls.len(),
{
    if ls.len() > 0 && !starts_with(ls[0], p) {
        lemma_first_line_with(ls.drop_first(), p);
        if let Some(i) = first_line_with(ls.drop_first(), p) {
            assert(ls[i + 1] == ls.drop_first()[i]);
        }
    }
}

/// The index of the first of `ls` that starts with `p`.
fn find_line(ls: &Vec<String>, p: &str) -> (r: Option<usize>)
    ensures
        match r {
            Some(i) => first_line_with(strings_of(ls@), p@) == Some(i as int) && i < ls@.len(),
            None => first_line_with(strings_of(ls@), p@) is None,
        },
{
    let ghost v = strings_of(ls@);
    let mut i: usize = 0;
    assert(v.skip(0) =~= v);
    while i < ls.len()
        invariant
            0 <= i <= ls@.len(),
            v == strings_of(ls@),
            first_line_with(v, p@) == (match first_line_with(v.skip(i as int), p@) {
                Some(j) => Some(j + i),
                None => None::<int>,
            }),
        decreases ls@.len() - i,
    {
        proof {
            assert(v.skip(i as int).drop_first() =~= v.skip(i + 1));
            assert(v.skip(i as int)[0] == ls@[i as int]@);
        }
        let chars = str_chars(ls[i].as_str());
        if chars_start_with(&chars, p) {
            return Some(i);
        }
        i += 1;
    }
    assert(v.skip(i as int).len() == 0);
    None
}

/// Finds the delegated cgroup v2 subtree from the contents of
/// `/proc/self/cgroup`.
pub fn cgroup_base(contents: &str) -> (r: Result<String, ResourceError>)
    ensures
        match r {
            Ok(p) => cgroup_base_spec(contents@) == Ok::<Seq<char>, Seq<char>>(p@),
            Err(e) => cgroup_base_spec(contents@) == Err::<Seq<char>, Seq<char>>(e@),
        },
{
    let ls = lines(contents);
    let i = match find_line(&ls, "0::") {
        Some(i) => i,
        None => {
            return Err(ResourceError(owned("this system is not using the cgroup v2 unified hierarchy")));
        },
    };
    let line = str_chars(ls[i].as_str());
    proof {
        reveal_strlit("0::");
        assert(line@ == strings_of(ls@)[i as int]);
        lemma_first_line_with(strings_of(ls@), "0::"@);
    }
    let ghost rest = line@.skip(3);
    assert(line@.len() >= 3);
    let mut prefix = owned("/sys/fs/cgroup");
    let mut start: usize = 3;
    let n = line.len();
    assert(line@.subrange(3, n as int) =~= rest);
    assert(cgroup_base_spec(contents@) == match delegated_prefix("/sys/fs/cgroup"@, split_on(rest, '/')) {
        Some(p) => Ok::<Seq<char>, Seq<char>>(p),
        None => Err(
            "no delegated cgroup v2 subtree found (expected a systemd user@<uid>.service scope) \u{2014} cannot enforce SPEND/SAVE without one."@,
        ),
    });
    loop
        invariant
            cgroup_base_spec(contents@) == match delegated_prefix("/sys/fs/cgroup"@, split_on(rest, '/')) {
                Some(p) => Ok::<Seq<char>, Seq<char>>(p),
                None => Err(
                    "no delegated cgroup v2 subtree found (expected a systemd user@<uid>.service scope) \u{2014} cannot enforce SPEND/SAVE without one."@,
                ),
            },
            3 <= start <= n,
            n == line@.len(),
            rest == line@.skip(3),
            delegated_prefix("/sys/fs/cgroup"@, split_on(rest, '/')) == delegated_prefix(
                prefix@,
                split_on(line@.subrange(start as int, n as int), '/'),
            ),
        decreases n - start,
    {
        let ghost u = line@.subrange(start as int, n as int);
        let p = crate::text::find_char(&line, start, n, '/');
        proof {
            crate::text::lemma_first_index_of(u, '/');
        }
        let component = crate::text::string_from_chars(&line, start, start + p);
        proof {
            assert(component@ =~= u.take(p as int));
        }
        let cchars = str_chars(component.as_str());
        let ghost pieces = split_on(u, '/');
        let ghost before = prefix@;
        proof {
            if start + p == n {
                assert(u.take(p as int) =~= u);
                assert(pieces == seq![u]);
                assert(pieces.drop_first() =~= Seq::<Seq<char>>::empty());
            } else {
                assert(u.skip(p + 1) =~= line@.subrange(start + p + 1, n as int));
                assert(pieces == seq![u.take(p as int)] + split_on(u.skip(p + 1), '/'));
                assert(pieces.drop_first() =~= split_on(u.skip(p + 1), '/'));
            }
            assert(pieces[0] == component@);
            reveal_strlit("/");
        }
        if cchars.len() > 0 {
            prefix.append("/");
            prefix.append(component.as_str());
            assert(prefix@ =~= before + seq!['/'] + component@);
            if chars_start_with(&cchars, "user@") && chars_end_with(&cchars, ".service") {
                assert(delegated_prefix(before, pieces) == Some(prefix@));
                return Ok(prefix);
            }
            assert(delegated_prefix(before, pieces) == delegated_prefix(prefix@, pieces.drop_first()));
        } else {
            assert(delegated_prefix(before, pieces) == delegated_prefix(prefix@, pieces.drop_first()));
        }
        if start + p == n {
            assert(delegated_prefix(prefix@, pieces.drop_first()) is None);
            return Err(
                ResourceError(
                    owned(
                        "no delegated cgroup v2 subtree found (expected a systemd user@<uid>.service scope) \u{2014} cannot enforce SPEND/SAVE without one.",
                    ),
                ),
            );
        }
        start = start + p + 1;
    }
}

/// The total RAM in bytes that `/proc/meminfo` reports: the second word of
/// its `MemTotal:` line, in kB. A value too large for a `u64` once scaled
/// to bytes is reported as unparsable.
pub open spec fn mem_total_spec(contents: Seq<char>) -> Result<u64, Seq<char>> {
    let ls = lines_of(contents);
    match first_line_with(ls, "MemTotal:"@) {
        None => Err("could not find MemTotal in /proc/meminfo"@),
        Some(i) => {
            let ws = words_of(ls[i]);
            let parsed = if ws.len() > 1 {
                parse_u64_spec(ws[1])
            } else {
                None
            };
            match parsed {
                Some(kb) => if kb * 1024 <= u64::MAX {
                    Ok((kb * 1024) as u64)
                } else {
                    Err("could not parse /proc/meminfo line: "@ + ls[i])
                },
                None => Err("could not parse /proc/meminfo line: "@ + ls[i]),
            }
        },
    }
}

/// Reads the total RAM from the contents of `/proc/meminfo`.
pub fn mem_total_bytes(contents: &str) -> (r: Result<u64, ResourceError>)
    ensures
        match r {
            Ok(n) => mem_total_spec(contents@) == Ok::<u64, Seq<char>>(n),
            Err(e) => mem_total_spec(contents@) == Err::<u64, Seq<char>>(e@),
        },
{
    let ls = lines(contents);
    let i = match find_line(&ls, "MemTotal:") {
        Some(i) => i,
        None => {
            return Err(ResourceError(owned("could not find MemTotal in /proc/meminfo")));
        },
    };
    let line = &ls[i];
    proof {
        assert(line@ == strings_of(ls@)[i as int]);
    }
    let ws = words(line.as_str());
    let parsed = if ws.len() > 1 {
        let digits = str_chars(ws[1].as_str());
        assert(digits@.subrange(0, digits@.len() as int) =~= digits@);
        parse_u64(&digits, 0, digits.len())
    } else {
        None
    };
    match parsed {
        Some(kb) => {
            if kb <= 0xFFFF_FFFF_FFFF_FFFF / 1024 {
                Ok(kb * 1024)
            } else {
                let mut m = String::from_str("could not parse /proc/meminfo line: ");
                m.append(line.as_str());
                Err(ResourceError(m))
            }
        },
        None => {
            let mut m = String::from_str("could not parse /proc/meminfo line: ");
            m.append(line.as_str());
            Err(ResourceError(m))
        },
    }
}

/// The ASCII decimal digits of `n`, most significant first.
pub open spec fn decimal_bytes(n: nat) -> Seq<u8>
    decreases n,
{
    if n < 10 {
        seq![(48 + n) as u8]
    } else {
        decimal_bytes(n / 10).push((48 + n % 10) as u8)
    }
}

pub open spec fn pow10(k: nat) -> nat
    decreases k,
{
    if k == 0 {
        1
    } else {
        10 * pow10((k - 1) as nat)
    }
}

/// Writes the decimal digits of `n` at the end of `buf` without
/// allocating, and gives the index where they start: `&buf[start..]` is
/// the text of `n`. Fit for use between `fork` and `exec`.
pub fn format_u32(n: u32, buf: &mut [u8; 10]) -> (start: usize)
    ensures
        start < 10,
        final(buf)@.subrange(start as int, 10) == decimal_bytes(n as nat),
{
    if n == 0 {
        buf.set(9, 48u8);
        assert(buf@.subrange(9, 10) =~= decimal_bytes(0));
        return 9;
    }
    let mut m = n;
    let mut i: usize = 10;
    assert(pow10(10) == 10000000000) by {
        reveal_with_fuel(pow10, 11);
    }
    assert(buf@.subrange(10, 10) =~= Seq::<u8>::empty());
    assert(decimal_bytes(n as nat) =~= decimal_bytes(m as nat) + buf@.subrange(10, 10));
    while m > 0
        invariant
            0 <= i <= 10,
            buf@.len() == 10,
            m < pow10(i as nat),
            m > 0 ==> decimal_bytes(n as nat) == decimal_bytes(m as nat) + buf@.subrange(i as int, 10),
            m == 0 ==> decimal_bytes(n as nat) == buf@.subrange(i as int, 10),
            m == 0 ==> i < 10,
        decreases m,
    {
        assert(i > 0) by {
            if i == 0 {
                assert(pow10(0) == 1);
            }
        }
        let digit = (m % 10) as u8;
        let ghost before = buf@;
        buf.set(i - 1, 48 + digit);
        proof {
            assert(pow10(i as nat) == 10 * pow10((i - 1) as nat));
            assert(buf@.subrange(i - 1, 10) =~= seq![(48 + m % 10) as u8] + before.subrange(i as int, 10));
            if m >= 10 {
                assert(decimal_bytes(m as nat) == decimal_bytes((m / 10) as nat).push((48 + m % 10) as u8));
                assert(decimal_bytes(n as nat) =~= decimal_bytes((m / 10) as nat) + buf@.subrange(i - 1, 10));
            } else {
                assert(decimal_bytes(m as nat) == seq![(48 + m) as u8]);
                assert(decimal_bytes(n as nat) =~= buf@.subrange(i - 1, 10));
            }
        }
        m = m / 10;
        i -= 1;
    }
    i
}

/// A budget needs nothing enforced exactly when it caps neither CPU nor
/// RAM and names no other resource; a cap on CPU or RAM with nothing
/// unenforceable needs a cgroup; any unenforceable resource refuses the
/// whole budget.
pub proof fn law_budget_needs_enforcement_when_capped(b: ResourceBudgetView)
    ensures
        budget_check_spec(b) == Ok::<bool, Seq<char>>(false) <==> (b.cpu_percent is None && b.ram_percent is None
            && b.unenforceable.len() == 0),
        budget_check_spec(b) == Ok::<bool, Seq<char>>(true) <==> (b.unenforceable.len() == 0 && (
        b.cpu_percent is Some || b.ram_percent is Some)),
        budget_check_spec(b) is Err <==> b.unenforceable.len() > 0,
{
}

} // verus!
