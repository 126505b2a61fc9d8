use vstd::prelude::*;
use vstd::string::StringExecFns;
use crate::hosts::{split_lines, split_text, views};
use crate::model::{HardwareDetails, NetworkDetails, SecurityStatus};
use crate::screen_time::{upper_of, uppercase};
use crate::report::strings_view;
use crate::text::{chars_of, seq_contains, str_contains, string_of};

verus! {

/// What `str::trim` makes of a string.
pub uninterp spec fn trimmed_of(s: Seq<char>) -> Seq<char>;

/// What `str::parse::<i64>` makes of a string: the number, or `None` on an error.
pub uninterp spec fn parsed_i64_of(s: Seq<char>) -> Option<i64>;

/// Relies on `str::trim`: its result depends on the characters alone.
#[verifier::external_body]
pub fn trim_text(s: &str) -> (r: String)
    ensures
        r@ == trimmed_of(s@),
{
    s.trim().to_string()
}

/// Relies on `str::parse::<i64>`: its result depends on the characters alone.
#[verifier::external_body]
pub fn parse_i64(s: &str) -> (r: Option<i64>)
    ensures
        r == parsed_i64_of(s@),
{
    s.parse::<i64>().ok()
}

/// The lines of a command's output: split at `'\n'`, with no empty last line
/// for a text that ends in a line break, and none at all for an empty text.
pub open spec fn output_lines(s: Seq<char>) -> Seq<Seq<char>> {
    if s.len() == 0 {
        Seq::<Seq<char>>::empty()
    } else if s.last() == '\n' {
        split_lines(s).drop_last()
    } else {
        split_lines(s)
    }
}

/// The lines of a command's output.
pub fn lines_of(s: &str) -> (r: Vec<String>)
    ensures
        strings_view(r@) == output_lines(s@),
{
    let chars = chars_of(s);
    let parts = split_text(&chars);
    let mut n = parts.len();
    if chars.len() == 0 {
        n = 0;
    } else if chars[chars.len() - 1] == '\n' {
        proof {
            crate::hosts::lemma_split_nonempty(s@);
        }
        n = n - 1;
    }
    let ghost want = output_lines(s@);
    assert(want =~= views(parts@).subrange(0, n as int));
    let mut out: Vec<String> = Vec::new();
    let mut i: usize = 0;
    while i < n
        invariant
            n <= parts@.len(),
            want == views(parts@).subrange(0, n as int),
            i <= n,
            strings_view(out@) == want.subrange(0, i as int),
        decreases n - i,
    {
        let line = string_of(&parts[i]);
        let ghost before = out@;
        out.push(line);
        assert(strings_view(out@) =~= strings_view(before).push(line@));
        assert(want.subrange(0, i + 1) =~= want.subrange(0, i as int).push(parts@[i as int]@));
        i = i + 1;
    }
    assert(want.subrange(0, n as int) =~= want);
    out
}

/// The trimmed second line of an output (the value under a one-line header), or
/// `default` when there is none.
pub open spec fn second_value(s: Seq<char>, default: Seq<char>) -> Seq<char> {
    if output_lines(s).len() > 1 {
        trimmed_of(output_lines(s)[1])
    } else {
        default
    }
}

/// The trimmed second line of `output`, or `default`.
pub fn second_line_value(output: &str, default: &str) -> (r: String)
    ensures
        r@ == second_value(output@, default@),
{
    let lines = lines_of(output);
    if lines.len() > 1 {
        assert(strings_view(lines@)[1] == lines@[1]@);
        trim_text(lines[1].as_str())
    } else {
        String::from_str(default)
    }
}

/// The number on the second line of an output, or 0.
pub open spec fn second_number(s: Seq<char>) -> i64 {
    match parsed_i64_of(second_value(s, "0"@)) {
        Some(v) => v,
        None => 0,
    }
}

fn second_line_number(output: &str) -> (r: i64)
    ensures
        r == second_number(output@),
{
    let v = second_line_value(output, "0");
    match parse_i64(v.as_str()) {
        Some(n) => n,
        None => 0,
    }
}

/// The raw outputs of the hardware queries an agent runs, one per field.
pub struct HardwareProbe {
    pub serial_output: String,
    pub manufacturer_output: String,
    pub model_output: String,
    pub bios_output: String,
    pub gpu_output: String,
    pub vram_output: String,
    pub slots_output: String,
    pub chips_output: String,
    pub ram_type_output: String,
}

/// The memory technology of a memory-type code.
pub open spec fn ram_type_of(code: i64) -> Seq<char> {
    if code == 24 {
        "DDR3"@
    } else if code == 26 {
        "DDR4"@
    } else if code == 27 {
        "DDR5"@
    } else {
        "Unknown"@
    }
}

/// The memory technology of a memory-type code.
pub fn ram_type_name(code: i64) -> (r: &'static str)
    ensures
        r@ == ram_type_of(code),
{
    if code == 24 {
        "DDR3"
    } else if code == 26 {
        "DDR4"
    } else if code == 27 {
        "DDR5"
    } else {
        "Unknown"
    }
}

/// How many lines after the header are not blank.
pub open spec fn filled_after_header(ls: Seq<Seq<char>>) -> nat {
    if ls.len() <= 1 {
        0
    } else {
        ls.subrange(1, ls.len() as int).filter(|l: Seq<char>| trimmed_of(l).len() > 0).len()
    }
}

fn count_filled_rows(output: &str) -> (r: i64)
    ensures
        r as int == min_int(filled_after_header(output_lines(output@)) as int, i64::MAX as int),
{
    let lines = lines_of(output);
    let ghost ls = output_lines(output@);
    assert(ls.len() == lines@.len());
    if lines.len() <= 1 {
        return 0;
    }
    let mut count: usize = 0;
    let mut i: usize = 1;
    while i < lines.len()
        invariant
            strings_view(lines@) == ls,
            1 <= i <= lines@.len(),
            count as nat == ls.subrange(1, i as int).filter(|l: Seq<char>| trimmed_of(l).len() > 0).len(),
            count <= i,
        decreases lines@.len() - i,
    {
        let t = trim_text(lines[i].as_str());
        proof {
            assert(ls[i as int] == lines@[i as int]@);
            assert(ls.subrange(1, i + 1) =~= ls.subrange(1, i as int).push(ls[i as int]));
            ls.subrange(1, i as int).lemma_filter_push(ls[i as int], |l: Seq<char>| trimmed_of(l).len() > 0);
        }
        if t.as_str().unicode_len() > 0 {
            count = count + 1;
        }
        i = i + 1;
    }
    assert(ls.len() == lines@.len());
    if count as u128 > i64::MAX as u128 {
        i64::MAX
    } else {
        count as i64
    }
}

/// Integer division that rounds toward zero, as Rust's `/` does.
pub open spec fn div_toward_zero(a: int, b: int) -> int {
    if a >= 0 {
        a / b
    } else {
        -((-a) / b)
    }
}

pub open spec fn min_int(a: int, b: int) -> int {
    if a <= b {
        a
    } else {
        b
    }
}

/// Bytes to mebibytes, rounding toward zero.
fn mebibytes(v: i64) -> (r: i64)
    ensures
        r as int == div_toward_zero(v as int, 1048576),
{
    let w = v as i128;
    if w >= 0 {
        (w / 1048576) as i64
    } else {
        let q = (-w) / 1048576;
        assert(q <= -w) by (nonlinear_arith)
            requires
                q == (-w) / 1048576,
                -w > 0,
        ;
        (-q) as i64
    }
}

/// The hardware facts an agent reports, read from its query outputs.
pub open spec fn hardware_facts(h: HardwareDetails, p: HardwareProbe) -> bool {
    let serial = second_value(p.serial_output@, "Unknown"@);
    let gpu = second_value(p.gpu_output@, "Unknown"@);
    &&& h.serial_number@ == if serial.len() == 0 { "Not Available"@ } else { serial }
    &&& h.motherboard_manufacturer@ == second_value(p.manufacturer_output@, "Unknown"@)
    &&& h.motherboard_model@ == second_value(p.model_output@, "Unknown"@)
    &&& h.bios_version@ == second_value(p.bios_output@, "Unknown"@)
    &&& h.gpu_name@ == if gpu.len() == 0 { "Integrated Graphics"@ } else { gpu }
    &&& h.gpu_vram_mb as int == div_toward_zero(second_number(p.vram_output@) as int, 1048576)
    &&& h.total_ram_slots == second_number(p.slots_output@)
    &&& h.used_ram_slots as int == min_int(filled_after_header(output_lines(p.chips_output@)) as int, i64::MAX as int)
    &&& h.ram_type@ == ram_type_of(second_number(p.ram_type_output@))
}

/// Reads the hardware facts from the agent's query outputs.
pub fn collect_hardware_details(probe: &HardwareProbe) -> (r: HardwareDetails)
    ensures
        hardware_facts(r, *probe),
{
    let serial = second_line_value(probe.serial_output.as_str(), "Unknown");
    let serial_number = if serial.as_str().unicode_len() == 0 {
        String::from_str("Not Available")
    } else {
        serial
    };
    let gpu = second_line_value(probe.gpu_output.as_str(), "Unknown");
    let gpu_name = if gpu.as_str().unicode_len() == 0 {
        String::from_str("Integrated Graphics")
    } else {
        gpu
    };
    let vram_bytes = second_line_number(probe.vram_output.as_str());
    let code = second_line_number(probe.ram_type_output.as_str());
    HardwareDetails {
        serial_number,
        motherboard_manufacturer: second_line_value(probe.manufacturer_output.as_str(), "Unknown"),
        motherboard_model: second_line_value(probe.model_output.as_str(), "Unknown"),
        bios_version: second_line_value(probe.bios_output.as_str(), "Unknown"),
        gpu_name,
        gpu_vram_mb: mebibytes(vram_bytes),
        total_ram_slots: second_line_number(probe.slots_output.as_str()),
        used_ram_slots: count_filled_rows(probe.chips_output.as_str()),
        ram_type: String::from_str(ram_type_name(code)),
    }
}

/// The raw outputs of the security queries an agent runs, one per field.
pub struct SecurityProbe {
    pub defender_enabled_output: String,
    pub defender_updated_output: String,
    pub firewall_output: String,
    pub bitlocker_active_output: String,
    pub bitlocker_drives_output: String,
    pub last_update_output: String,
}

/// A query that answers `True` on its own.
pub open spec fn says_true(s: Seq<char>) -> bool {
    trimmed_of(s) == "True"@
}

/// The non-blank lines of an output, trimmed.
pub open spec fn listed_values(s: Seq<char>) -> Seq<Seq<char>> {
    output_lines(s).map_values(|l: Seq<char>| trimmed_of(l)).filter(|l: Seq<char>| l.len() > 0)
}

/// The security facts an agent reports, read from its query outputs.
pub open spec fn security_facts(st: SecurityStatus, p: SecurityProbe) -> bool {
    let update = trimmed_of(p.last_update_output@);
    &&& st.windows_defender_enabled == says_true(p.defender_enabled_output@)
    &&& st.windows_defender_updated == says_true(p.defender_updated_output@)
    &&& st.firewall_enabled == (seq_contains(p.firewall_output@, "ON"@) || seq_contains(
        p.firewall_output@,
        "Ativado"@,
    ))
    &&& st.bitlocker_active == says_true(p.bitlocker_active_output@)
    &&& strings_view(st.bitlocker_drives@) == listed_values(p.bitlocker_drives_output@)
    &&& st.last_windows_update@ == if update.len() == 0 { "Unknown"@ } else { update }
}

fn answers_true(output: &str) -> (r: bool)
    ensures
        r == says_true(output@),
{
    let t = trim_text(output);
    let yes = String::from_str("True");
    t == yes
}

fn listed_lines(output: &str) -> (r: Vec<String>)
    ensures
        strings_view(r@) == listed_values(output@),
{
    let lines = lines_of(output);
    let ghost ls = output_lines(output@);
    let ghost ts = ls.map_values(|l: Seq<char>| trimmed_of(l));
    let mut out: Vec<String> = Vec::new();
    let mut i: usize = 0;
    assert(ls.len() == lines@.len());
    while i < lines.len()
        invariant
            strings_view(lines@) == ls,
            ts == ls.map_values(|l: Seq<char>| trimmed_of(l)),
            ls.len() == lines@.len(),
            i <= lines@.len(),
            strings_view(out@) == ts.subrange(0, i as int).filter(|l: Seq<char>| l.len() > 0),
        decreases lines@.len() - i,
    {
        let t = trim_text(lines[i].as_str());
        proof {
            assert(ls[i as int] == lines@[i as int]@);
            assert(ts[i as int] == t@);
            assert(ts.subrange(0, i + 1) =~= ts.subrange(0, i as int).push(t@));
            ts.subrange(0, i as int).lemma_filter_push(t@, |l: Seq<char>| l.len() > 0);
        }
        if t.as_str().unicode_len() > 0 {
            let ghost before = out@;
            out.push(t);
            assert(strings_view(out@) =~= strings_view(before).push(out@.last()@));
        }
        i = i + 1;
    }
    assert(ts.subrange(0, ts.len() as int) =~= ts);
    out
}

/// Reads the security facts from the agent's query outputs.
pub fn collect_security_status(probe: &SecurityProbe) -> (r: SecurityStatus)
    ensures
        security_facts(r, *probe),
{
    let update = trim_text(probe.last_update_output.as_str());
    let last_windows_update = if update.as_str().unicode_len() == 0 {
        String::from_str("Unknown")
    } else {
        update
    };
    SecurityStatus {
        windows_defender_enabled: answers_true(probe.defender_enabled_output.as_str()),
        windows_defender_updated: answers_true(probe.defender_updated_output.as_str()),
        firewall_enabled: str_contains(probe.firewall_output.as_str(), "ON") || str_contains(
            probe.firewall_output.as_str(),
            "Ativado",
        ),
        bitlocker_active: answers_true(probe.bitlocker_active_output.as_str()),
        bitlocker_drives: listed_lines(probe.bitlocker_drives_output.as_str()),
        last_windows_update,
    }
}

/// Where character `c` first stands in `s`, or -1.
pub open spec fn first_index(s: Seq<char>, c: char) -> int {
    if exists|i: int| 0 <= i < s.len() && s[i] == c {
        choose|i: int| 0 <= i < s.len() && s[i] == c && forall|j: int| 0 <= j < i ==> s[j] != c
    } else {
        -1
    }
}

/// The text after the first `':'` of a line, up to the next `':'`, if the line
/// has one.
pub open spec fn colon_field(l: Seq<char>) -> Option<Seq<char>> {
    let i = first_index(l, ':');
    if i < 0 {
        None
    } else {
        let rest = l.subrange(i + 1, l.len() as int);
        let j = first_index(rest, ':');
        if j < 0 {
            Some(rest)
        } else {
            Some(rest.subrange(0, j))
        }
    }
}

fn find_char(v: &Vec<char>, from: usize, c: char) -> (r: Option<usize>)
    requires
        from <= v@.len(),
    ensures
        match r {
            Some(i) => from <= i < v@.len() && v@[i as int] == c && forall|j: int| from <= j < i ==> v@[j] != c,
            None => forall|j: int| from <= j < v@.len() ==> v@[j] != c,
        },
{
    let mut i = from;
    while i < v.len()
        invariant
            from <= i <= v@.len(),
            forall|j: int| from <= j < i ==> v@[j] != c,
        decreases v@.len() - i,
    {
        if v[i] == c {
            return Some(i);
        }
        i = i + 1;
    }
    None
}

proof fn lemma_first_index(s: Seq<char>, c: char, i: int)
    requires
        0 <= i < s.len(),
        s[i] == c,
        forall|j: int| 0 <= j < i ==> s[j] != c,
    ensures
        first_index(s, c) == i,
{
    let k = choose|k: int| 0 <= k < s.len() && s[k] == c && forall|j: int| 0 <= j < k ==> s[j] != c;
    if k < i {
        assert(s[k] != c);
    } else if i < k {
        assert(s[i] != c);
    }
}

/// The text after the first `':'` of `line`, up to the next `':'`.
pub fn field_after_colon(line: &str) -> (r: Option<String>)
    ensures
        match r {
            Some(f) => colon_field(line@) == Some(f@),
            None => colon_field(line@).is_none(),
        },
{
    let v = chars_of(line);
    let n = v.len();
    match find_char(&v, 0, ':') {
        None => None,
        Some(i) => {
            proof {
                lemma_first_index(line@, ':', i as int);
            }
            let ghost rest = line@.subrange(i + 1, line@.len() as int);
            let end = match find_char(&v, i + 1, ':') {
                None => n,
                Some(j) => {
                    proof {
                        assert(rest[j - i - 1] == ':');
                        assert forall|t: int| 0 <= t < j - i - 1 implies rest[t] != ':' by {
                            assert(rest[t] == v@[i + 1 + t]);
                        }
                        lemma_first_index(rest, ':', j - i - 1);
                    }
                    j
                },
            };
            let mut out: Vec<char> = Vec::new();
            let mut k = i + 1;
            while k < end
                invariant
                    i + 1 <= k <= end <= v@.len(),
                    out@ == v@.subrange(i + 1, k as int),
                decreases end - k,
            {
                out.push(v[k]);
                k = k + 1;
            }
            proof {
                if end == n {
                    assert(first_index(rest, ':') == -1) by {
                        assert forall|t: int| 0 <= t < rest.len() implies rest[t] != ':' by {
                            assert(rest[t] == v@[i + 1 + t]);
                        }
                    }
                    assert(out@ =~= rest);
                } else {
                    assert(out@ =~= rest.subrange(0, end - i - 1));
                }
            }
            Some(string_of(&out))
        },
    }
}

/// A line the network parser is looking for: it names `key` or `alt`, does not
/// name `skip`, has a field after a colon and, when `non_blank`, that field is
/// not blank once trimmed.
pub open spec fn wanted_line(l: Seq<char>, key: Seq<char>, alt: Seq<char>, skip: Option<Seq<char>>, non_blank: bool) -> bool {
    &&& seq_contains(l, key) || seq_contains(l, alt)
    &&& (skip matches Some(x) ==> !seq_contains(l, x))
    &&& colon_field(l).is_some()
    &&& (non_blank ==> trimmed_of(colon_field(l).unwrap()).len() > 0)
}

/// Where the first wanted line stands in `ls`, or -1.
pub open spec fn first_wanted(
    ls: Seq<Seq<char>>,
    key: Seq<char>,
    alt: Seq<char>,
    skip: Option<Seq<char>>,
    non_blank: bool,
) -> int {
    if exists|k: int| 0 <= k < ls.len() && wanted_line(ls[k], key, alt, skip, non_blank) {
        choose|k: int|
            0 <= k < ls.len() && wanted_line(ls[k], key, alt, skip, non_blank) && forall|j: int|
                0 <= j < k ==> !wanted_line(ls[j], key, alt, skip, non_blank)
    } else {
        -1
    }
}

proof fn lemma_first_wanted(
    ls: Seq<Seq<char>>,
    key: Seq<char>,
    alt: Seq<char>,
    skip: Option<Seq<char>>,
    non_blank: bool,
    i: int,
)
    requires
        0 <= i < ls.len(),
        wanted_line(ls[i], key, alt, skip, non_blank),
        forall|j: int| 0 <= j < i ==> !wanted_line(ls[j], key, alt, skip, non_blank),
    ensures
        first_wanted(ls, key, alt, skip, non_blank) == i,
{
    let k = choose|k: int|
        0 <= k < ls.len() && wanted_line(ls[k], key, alt, skip, non_blank) && forall|j: int|
            0 <= j < k ==> !wanted_line(ls[j], key, alt, skip, non_blank);
    if k < i {
        assert(!wanted_line(ls[k], key, alt, skip, non_blank));
    } else if k > i {
        assert(!wanted_line(ls[i], key, alt, skip, non_blank));
    }
}

/// The trimmed field of the first wanted line of an output, if any.
pub open spec fn wanted_value(
    s: Seq<char>,
    key: Seq<char>,
    alt: Seq<char>,
    skip: Option<Seq<char>>,
    non_blank: bool,
) -> Option<Seq<char>> {
    let ls = output_lines(s);
    let k = first_wanted(ls, key, alt, skip, non_blank);
    if k >= 0 {
        Some(trimmed_of(colon_field(ls[k]).unwrap()))
    } else {
        None
    }
}

/// The trimmed field of `line` if it is a wanted line.
fn wanted_field(line: &str, key: &str, alt: &str, skip: Option<&str>, non_blank: bool) -> (r: Option<String>)
    ensures
        match r {
            Some(t) => wanted_line(line@, key@, alt@, opt_str_view(skip), non_blank) && t@ == trimmed_of(
                colon_field(line@).unwrap(),
            ),
            None => !wanted_line(line@, key@, alt@, opt_str_view(skip), non_blank),
        },
{
    let named = str_contains(line, key) || str_contains(line, alt);
    let skipped = match skip {
        Some(x) => str_contains(line, x),
        None => false,
    };
    if !named || skipped {
        return None;
    }
    match field_after_colon(line) {
        None => None,
        Some(f) => {
            let t = trim_text(f.as_str());
            if !non_blank || t.as_str().unicode_len() > 0 {
                Some(t)
            } else {
                None
            }
        },
    }
}

fn find_value(output: &str, key: &str, alt: &str, skip: Option<&str>, non_blank: bool) -> (r: Option<String>)
    ensures
        match r {
            Some(v) => wanted_value(output@, key@, alt@, opt_str_view(skip), non_blank) == Some(v@),
            None => wanted_value(output@, key@, alt@, opt_str_view(skip), non_blank).is_none(),
        },
{
    let lines = lines_of(output);
    let ghost ls = output_lines(output@);
    let ghost sk = opt_str_view(skip);
    assert(ls.len() == lines@.len());
    let mut i: usize = 0;
    while i < lines.len()
        invariant
            strings_view(lines@) == ls,
            ls == output_lines(output@),
            ls.len() == lines@.len(),
            sk == opt_str_view(skip),
            i <= lines@.len(),
            forall|j: int| 0 <= j < i ==> !wanted_line(ls[j], key@, alt@, sk, non_blank),
        decreases lines@.len() - i,
    {
        proof {
            assert(ls[i as int] == lines@[i as int]@);
        }
        if let Some(t) = wanted_field(lines[i].as_str(), key, alt, skip, non_blank) {
            proof {
                lemma_first_wanted(ls, key@, alt@, sk, non_blank, i as int);
            }
            return Some(t);
        }
        i = i + 1;
    }
    proof {
        assert(!exists|k: int| 0 <= k < ls.len() && wanted_line(ls[k], key@, alt@, sk, non_blank));
    }
    None
}

pub open spec fn opt_str_view(o: Option<&str>) -> Option<Seq<char>> {
    match o {
        Some(s) => Some(s@),
        None => None,
    }
}

/// The first whitespace-separated word of a string, if any.
pub uninterp spec fn first_word_of(s: Seq<char>) -> Option<Seq<char>>;

/// Relies on `str::split_whitespace`: its first word depends on the characters alone.
#[verifier::external_body]
fn first_word(s: &str) -> (r: Option<String>)
    ensures
        match r {
            Some(w) => first_word_of(s@) == Some(w@),
            None => first_word_of(s@).is_none(),
        },
{
    s.split_whitespace().next().map(|w| w.to_string())
}

/// A `getmac` line whose first word holds a dash.
pub open spec fn mac_line(l: Seq<char>) -> bool {
    first_word_of(l) matches Some(w) && seq_contains(w, "-"@)
}

/// Where the first address line past the three header lines stands, or -1.
pub open spec fn first_mac(ls: Seq<Seq<char>>) -> int {
    if exists|k: int| 3 <= k < ls.len() && mac_line(ls[k]) {
        choose|k: int| 3 <= k < ls.len() && mac_line(ls[k]) && forall|j: int| 3 <= j < k ==> !mac_line(ls[j])
    } else {
        -1
    }
}

proof fn lemma_first_mac(ls: Seq<Seq<char>>, i: int)
    requires
        3 <= i < ls.len(),
        mac_line(ls[i]),
        forall|j: int| 3 <= j < i ==> !mac_line(ls[j]),
    ensures
        first_mac(ls) == i,
{
    let k = choose|k: int| 3 <= k < ls.len() && mac_line(ls[k]) && forall|j: int| 3 <= j < k ==> !mac_line(ls[j]);
    if k < i {
        assert(!mac_line(ls[k]));
    } else if k > i {
        assert(!mac_line(ls[i]));
    }
}

/// The adapter address in a `getmac` listing: past the three header lines, the
/// first word of the first line whose first word holds a dash.
pub open spec fn mac_of(s: Seq<char>) -> Seq<char> {
    let ls = output_lines(s);
    let k = first_mac(ls);
    if k >= 0 {
        first_word_of(ls[k]).unwrap()
    } else {
        "00-00-00-00-00-00"@
    }
}

fn mac_address(output: &str) -> (r: String)
    ensures
        r@ == mac_of(output@),
{
    let lines = lines_of(output);
    let ghost ls = output_lines(output@);
    assert(ls.len() == lines@.len());
    let mut i: usize = 3;
    while i < lines.len()
        invariant
            strings_view(lines@) == ls,
            ls == output_lines(output@),
            ls.len() == lines@.len(),
            3 <= i,
            forall|j: int| 3 <= j < i && j < ls.len() ==> !mac_line(ls[j]),
        decreases lines@.len() - i,
    {
        proof {
            assert(ls[i as int] == lines@[i as int]@);
        }
        if let Some(w) = first_word(lines[i].as_str()) {
            if str_contains(w.as_str(), "-") {
                proof {
                    assert(mac_line(ls[i as int]));
                    lemma_first_mac(ls, i as int);
                }
                return w;
            }
        }
        i = i + 1;
    }
    proof {
        assert(!exists|k: int| 3 <= k < ls.len() && mac_line(ls[k]));
    }
    String::from_str("00-00-00-00-00-00")
}

/// The raw outputs of the network queries an agent runs, and the address it
/// found for itself.
pub struct NetworkProbe {
    pub local_ip: String,
    pub ipconfig_output: String,
    pub ipconfig_all_output: String,
    pub nslookup_output: String,
    pub domain_output: String,
    pub getmac_output: String,
    pub adapter_output: String,
    pub speed_output: String,
    /// The wireless listing, when the query could run.
    pub wlan_output: Option<String>,
}

pub open spec fn or_default(v: Option<Seq<char>>, d: Seq<char>) -> Seq<char> {
    match v {
        Some(x) => x,
        None => d,
    }
}

pub open spec fn wlan_value(o: Option<String>, key: Seq<char>, skip: Option<Seq<char>>) -> Option<Seq<char>> {
    match o {
        Some(s) => wanted_value(s@, key, key, skip, false),
        None => None,
    }
}

/// The network facts an agent reports, read from its query outputs.
pub open spec fn network_facts(n: NetworkDetails, p: NetworkProbe) -> bool {
    let domain = second_value(p.domain_output@, "WORKGROUP"@);
    &&& n.local_ip@ == p.local_ip@
    &&& n.subnet_mask@ == or_default(
        wanted_value(p.ipconfig_output@, "Subnet Mask"@, "M\u{e1}scara de Sub-rede"@, None, false),
        "255.255.255.0"@,
    )
    &&& n.gateway@ == or_default(
        wanted_value(p.ipconfig_output@, "Default Gateway"@, "Gateway Predefinido"@, None, true),
        "192.168.1.1"@,
    )
    &&& n.dns_primary@ == or_default(wanted_value(p.nslookup_output@, "Server:"@, "Server:"@, None, false), "8.8.8.8"@)
    &&& n.dns_secondary.is_none()
    &&& n.dhcp_enabled == (seq_contains(p.ipconfig_all_output@, "DHCP Enabled"@) && seq_contains(
        p.ipconfig_all_output@,
        "Yes"@,
    ))
    &&& n.domain_name@ == domain
    &&& n.is_domain_joined == (upper_of(domain) != "WORKGROUP"@)
    &&& n.mac_address@ == mac_of(p.getmac_output@)
    &&& n.adapter_name@ == second_value(p.adapter_output@, "Unknown Adapter"@)
    &&& n.connection_speed_mbps as int == div_toward_zero(second_number(p.speed_output@) as int, 1000000)
    &&& opt_view_of(n.wifi_ssid) == wlan_value(p.wlan_output, "SSID"@, Some("BSSID"@))
    &&& opt_view_of(n.wifi_security) == wlan_value(p.wlan_output, "Authentication"@, None)
}

pub open spec fn opt_view_of(o: Option<String>) -> Option<Seq<char>> {
    match o {
        Some(s) => Some(s@),
        None => None,
    }
}

fn value_or(v: Option<String>, default: &str) -> (r: String)
    ensures
        r@ == or_default(opt_view_of(v), default@),
{
    match v {
        Some(x) => x,
        None => String::from_str(default),
    }
}

/// Whether a machine is joined to a domain: its domain is not the default workgroup.
pub fn check_domain_joined(domain: &str) -> (r: bool)
    ensures
        r == (upper_of(domain@) != "WORKGROUP"@),
{
    let upper = uppercase(domain);
    !(upper == String::from_str("WORKGROUP"))
}

/// The secondary name server; agents do not look for one.
pub fn get_dns_secondary() -> (r: Option<String>)
    ensures
        r.is_none(),
{
    None
}

fn wlan_field(output: &Option<String>, key: &str, skip: Option<&str>) -> (r: Option<String>)
    ensures
        opt_view_of(r) == wlan_value(*output, key@, opt_str_view(skip)),
{
    match output {
        Some(s) => find_value(s.as_str(), key, key, skip, false),
        None => None,
    }
}

/// Reads the network facts from the agent's query outputs.
pub fn collect_network_details(probe: &NetworkProbe) -> (r: NetworkDetails)
    ensures
        network_facts(r, *probe),
{
    let domain_name = second_line_value(probe.domain_output.as_str(), "WORKGROUP");
    let is_domain_joined = check_domain_joined(domain_name.as_str());
    let speed = second_line_number(probe.speed_output.as_str());
    let w = speed as i128;
    let connection_speed_mbps = if w >= 0 {
        (w / 1000000) as i64
    } else {
        let q = (-w) / 1000000;
        assert(q <= -w) by (nonlinear_arith)
            requires
                q == (-w) / 1000000,
                -w > 0,
        ;
        (-q) as i64
    };
    NetworkDetails {
        local_ip: probe.local_ip.clone(),
        subnet_mask: value_or(
            find_value(probe.ipconfig_output.as_str(), "Subnet Mask", "M\u{e1}scara de Sub-rede", None, false),
            "255.255.255.0",
        ),
        gateway: value_or(
            find_value(probe.ipconfig_output.as_str(), "Default Gateway", "Gateway Predefinido", None, true),
            "192.168.1.1",
        ),
        dns_primary: value_or(find_value(probe.nslookup_output.as_str(), "Server:", "Server:", None, false), "8.8.8.8"),
        dns_secondary: get_dns_secondary(),
        dhcp_enabled: str_contains(probe.ipconfig_all_output.as_str(), "DHCP Enabled") && str_contains(
            probe.ipconfig_all_output.as_str(),
            "Yes",
        ),
        domain_name,
        is_domain_joined,
        mac_address: mac_address(probe.getmac_output.as_str()),
        adapter_name: second_line_value(probe.adapter_output.as_str(), "Unknown Adapter"),
        connection_speed_mbps,
        wifi_ssid: wlan_field(&probe.wlan_output, "SSID", Some("BSSID")),
        wifi_security: wlan_field(&probe.wlan_output, "Authentication", None),
    }
}

} // verus!
