use vstd::prelude::*;
use vstd::string::*;
use crate::text::{
    opt_text,
    chars_of, contains_chars, contains_seq, lines_of, split_on, split_str, text_lines, to_lowercase,
    lowercase, trim, trim_str, views, words, words_of, lemma_split_on_nonempty,
};

verus! {

/// What running a command came to, from whether it succeeded, its exit
/// status as text, and what it printed: its output where it succeeded, else
/// `Command failed with status <status>: <stderr>`.
pub fn exec_command(success: bool, status: &str, stdout: &str, stderr: &str) -> (r: Result<
    String,
    String,
>)
    ensures
        match r {
            Ok(o) => success && o@ == stdout@,
            Err(e) => !success && e@ == "Command failed with status "@ + status@ + ": "@ + stderr@,
        },
{
    if success {
        Ok(String::from_str(stdout))
    } else {
        Err(String::from_str("Command failed with status ").concat(status).concat(": ").concat(
            stderr,
        ))
    }
}

/// A journal line reports a problem: it holds `error` or `fatal`.
pub open spec fn is_error_line(l: Seq<char>) -> bool {
    contains_seq(l, "error"@) || contains_seq(l, "fatal"@)
}

/// How many of `ls` report a problem.
pub open spec fn error_line_count(ls: Seq<Seq<char>>) -> nat
    decreases ls.len(),
{
    if ls.len() == 0 {
        0
    } else {
        error_line_count(ls.drop_last()) + if is_error_line(ls.last()) {
            1nat
        } else {
            0nat
        }
    }
}

/// A line adds one to the problem count exactly when it holds `error` or
/// `fatal`; any other line (a warning, a log line) adds nothing.
pub proof fn law_error_line_counting(ls: Seq<Seq<char>>, l: Seq<char>)
    ensures
        (contains_seq(l, "error"@) || contains_seq(l, "fatal"@)) ==> error_line_count(ls.push(l))
            == error_line_count(ls) + 1,
        !contains_seq(l, "error"@) && !contains_seq(l, "fatal"@) ==> error_line_count(ls.push(l))
            == error_line_count(ls),
{
    assert(ls.push(l).drop_last() =~= ls);
}

/// Lines none of which holds `error` or `fatal` count zero problems.
pub proof fn law_no_error_lines_count_zero(ls: Seq<Seq<char>>)
    requires
        forall|i: int|
            0 <= i < ls.len() ==> !contains_seq(#[trigger] ls[i], "error"@) && !contains_seq(
                ls[i],
                "fatal"@,
            ),
    ensures
        error_line_count(ls) == 0,
    decreases ls.len(),
{
    if ls.len() > 0 {
        let d = ls.drop_last();
        assert forall|i: int| 0 <= i < d.len() implies !contains_seq(#[trigger] d[i], "error"@)
            && !contains_seq(d[i], "fatal"@) by {
            assert(d[i] == ls[i]);
        }
        law_no_error_lines_count_zero(d);
        assert(ls[ls.len() - 1] == ls.last());
    }
}

/// The number of lines of `text` that hold `error` or `fatal`, as a `u32`
/// (wrapping, as the `as u32` of a count does).
pub fn count_error_lines(text: &str) -> (n: u32)
    ensures
        n == error_line_count(text_lines(text@)) as u32,
{
    let ls = lines_of(text);
    let error = chars_of("error");
    let fatal = chars_of("fatal");
    let ghost lv = views(ls@);
    let mut count: usize = 0;
    let mut i: usize = 0;
    while i < ls.len()
        invariant
            lv == views(ls@),
            lv == text_lines(text@),
            error@ == "error"@,
            fatal@ == "fatal"@,
            i <= ls@.len(),
            count == error_line_count(lv.take(i as int)),
            count <= i,
        decreases ls@.len() - i,
    {
        let cs = chars_of(ls[i].as_str());
        assert(lv.take(i + 1).drop_last() =~= lv.take(i as int));
        assert(lv.take(i + 1).last() == ls@[i as int]@);
        if contains_chars(&cs, &error) || contains_chars(&cs, &fatal) {
            count = count + 1;
        }
        i = i + 1;
    }
    assert(lv.take(ls@.len() as int) =~= lv);
    #[verifier::truncate]
    (count as u32)
}

/// The number of problem lines in a service's journal output (`None` where
/// `journalctl` could not be run, which counts none): the output is
/// lower-cased first, so `ERROR` and `Fatal` count too.
pub fn get_service_errors(output: Option<&str>) -> (n: u32)
    ensures
        n == match output {
            Some(o) => error_line_count(text_lines(lowercase(o@))) as u32,
            None => 0,
        },
{
    match output {
        Some(o) => {
            let lower = to_lowercase(o);
            count_error_lines(lower.as_str())
        },
        None => 0,
    }
}

/// What `systemctl show --property=ActiveEnterTimestamp` printed tells of a
/// service's start: the text after the first `=` (up to the next `=`) of
/// the trimmed output, or `unknown`.
pub open spec fn uptime_of(output: Option<Seq<char>>) -> Seq<char> {
    match output {
        Some(o) => {
            let parts = split_on(trim(o), '=');
            if parts.len() > 1 {
                parts[1]
            } else {
                "unknown"@
            }
        },
        None => "unknown"@,
    }
}

/// The start time of a service from `systemctl show`'s output (`None`
/// where `systemctl` could not be run).
pub fn get_service_uptime(output: Option<&str>) -> (r: String)
    ensures
        r@ == uptime_of(
            match output {
                Some(o) => Some(o@),
                None => None,
            },
        ),
{
    match output {
        Some(o) => {
            let t = trim_str(o);
            let parts = split_str(t.as_str(), '=');
            assert(views(parts@)[1] == parts@[1]@ || parts@.len() <= 1);
            if parts.len() > 1 {
                parts[1].clone()
            } else {
                String::from_str("unknown")
            }
        },
        None => String::from_str("unknown"),
    }
}

/// The first line of `out`, trimmed; empty where `out` has no line.
pub open spec fn first_line_trimmed(out: Seq<char>) -> Seq<char> {
    let ls = text_lines(out);
    if ls.len() > 0 {
        trim(ls[0])
    } else {
        Seq::empty()
    }
}

/// The version a service reports: the first line of what `<service> -v`
/// printed (`short`, `None` where it failed), else of what
/// `<service> --version` printed (`long`), else `-`.
pub open spec fn version_of(short: Option<Seq<char>>, long: Option<Seq<char>>) -> Seq<char> {
    match short {
        Some(s) => first_line_trimmed(s),
        None => match long {
            Some(l) => first_line_trimmed(l),
            None => "-"@,
        },
    }
}

fn first_line_trimmed_exec(out: &str) -> (r: String)
    ensures
        r@ == first_line_trimmed(out@),
{
    let ls = lines_of(out);
    if ls.len() > 0 {
        assert(views(ls@)[0] == ls@[0]@);
        trim_str(ls[0].as_str())
    } else {
        String::new()
    }
}

/// The version of a service from the output of its `-v` run (`short`) and,
/// where that failed, of its `--version` run (`long`).
pub fn detect_service_version(short: Option<&str>, long: Option<&str>) -> (r: String)
    ensures
        r@ == version_of(
            match short {
                Some(s) => Some(s@),
                None => None,
            },
            match long {
                Some(l) => Some(l@),
                None => None,
            },
        ),
{
    match short {
        Some(s) => first_line_trimmed_exec(s),
        None => match long {
            Some(l) => first_line_trimmed_exec(l),
            None => String::from_str("-"),
        },
    }
}

/// The log lines of a service: the lines that `journalctl` printed, or the
/// single line `Failed to read logs` where it could not be run.
pub fn read_service_logs(output: Option<&str>) -> (r: Vec<String>)
    ensures
        views(r@) == match output {
            Some(o) => text_lines(o@),
            None => seq!["Failed to read logs"@],
        },
{
    match output {
        Some(o) => lines_of(o),
        None => {
            let mut v: Vec<String> = Vec::new();
            v.push(String::from_str("Failed to read logs"));
            assert(views(v@) =~= seq!["Failed to read logs"@]);
            v
        },
    }
}

/// What one line of HAProxy's `show stat` reply tells: `None` where the
/// line is a comment, has fewer than 18 columns or is not a `BACKEND` row;
/// for a backend row, whether its status column (the 18th) is `UP`.
pub open spec fn backend_row(line: Seq<char>) -> Option<bool> {
    let cols = split_on(line, ',');
    if line.len() > 0 && line[0] == '#' {
        None
    } else if cols.len() < 18 {
        None
    } else if cols[1] != "BACKEND"@ {
        None
    } else {
        Some(cols[17] == "UP"@)
    }
}

/// How many of `ls` are backend rows.
pub open spec fn backend_total(ls: Seq<Seq<char>>) -> nat
    decreases ls.len(),
{
    if ls.len() == 0 {
        0
    } else {
        backend_total(ls.drop_last()) + if backend_row(ls.last()) is Some {
            1nat
        } else {
            0nat
        }
    }
}

/// How many of `ls` are backend rows whose status is `UP`.
pub open spec fn backend_up(ls: Seq<Seq<char>>) -> nat
    decreases ls.len(),
{
    if ls.len() == 0 {
        0
    } else {
        backend_up(ls.drop_last()) + if backend_row(ls.last()) == Some(true) {
            1nat
        } else {
            0nat
        }
    }
}

/// Only rows whose second column (the server name) is exactly `BACKEND`
/// count: a row with any other server name, such as `FRONTEND`, or with
/// fewer than two columns, adds to neither count.
pub proof fn law_only_backend_rows_count(ls: Seq<Seq<char>>, l: Seq<char>)
    requires
        split_on(l, ',').len() < 2 || split_on(l, ',')[1] != "BACKEND"@,
    ensures
        backend_total(ls.push(l)) == backend_total(ls),
        backend_up(ls.push(l)) == backend_up(ls),
{
    assert(ls.push(l).drop_last() =~= ls);
}

/// A row that is not a comment, has at least 18 columns and the server name
/// `BACKEND` adds one to the total, and one to the up count exactly when its
/// status column (the 18th) is `UP`.
pub proof fn law_backend_row_counts(ls: Seq<Seq<char>>, l: Seq<char>)
    requires
        !(l.len() > 0 && l[0] == '#'),
        split_on(l, ',').len() >= 18,
        split_on(l, ',')[1] == "BACKEND"@,
    ensures
        backend_total(ls.push(l)) == backend_total(ls) + 1,
        backend_up(ls.push(l)) == backend_up(ls) + if split_on(l, ',')[17] == "UP"@ {
            1int
        } else {
            0int
        },
{
    assert(ls.push(l).drop_last() =~= ls);
}

/// No more backends are up than there are backends.
pub proof fn law_backend_up_le_total(ls: Seq<Seq<char>>)
    ensures
        backend_up(ls) <= backend_total(ls),
    decreases ls.len(),
{
    if ls.len() > 0 {
        law_backend_up_le_total(ls.drop_last());
    }
}

proof fn lemma_backend_total_prefix(ls: Seq<Seq<char>>, i: int)
    requires
        0 <= i <= ls.len(),
    ensures
        backend_total(ls.take(i)) <= backend_total(ls),
    decreases ls.len() - i,
{
    if i < ls.len() {
        lemma_backend_total_prefix(ls, i + 1);
        assert(ls.take(i + 1).drop_last() =~= ls.take(i));
    } else {
        assert(ls.take(i) =~= ls);
    }
}

fn is_backend_row(line: &str) -> (r: Option<bool>)
    ensures
        r == backend_row(line@),
{
    let comment = line.unicode_len() > 0 && line.get_char(0) == '#';
    if comment {
        return None;
    }
    let cols = split_str(line, ',');
    if cols.len() < 18 {
        return None;
    }
    assert(views(cols@)[1] == cols@[1]@);
    assert(views(cols@)[17] == cols@[17]@);
    if cols[1] == String::from_str("BACKEND") {
        Some(cols[17] == String::from_str("UP"))
    } else {
        None
    }
}

/// Whether the number of backend rows of HAProxy's `show stat` reply fits
/// the `u32` the counts are kept in.
pub fn backend_count_fits(reply: &str) -> (r: bool)
    ensures
        r == (backend_total(text_lines(reply@)) <= u32::MAX),
{
    let ls = lines_of(reply);
    let ghost lv = views(ls@);
    let mut total: usize = 0;
    let mut i: usize = 0;
    while i < ls.len()
        invariant
            lv == views(ls@),
            lv == text_lines(reply@),
            i <= ls@.len(),
            total == backend_total(lv.take(i as int)),
            total <= i,
        decreases ls@.len() - i,
    {
        assert(lv.take(i + 1).drop_last() =~= lv.take(i as int));
        assert(lv.take(i + 1).last() == ls@[i as int]@);
        if is_backend_row(ls[i].as_str()).is_some() {
            total = total + 1;
        }
        i = i + 1;
    }
    assert(lv.take(ls@.len() as int) =~= lv);
    total <= 0xffff_ffff
}

/// The backend counts of HAProxy's `show stat` reply: how many backend
/// rows have status `UP`, and how many backend rows there are.
pub fn backend_stats(reply: &str) -> (r: (u32, u32))
    requires
        backend_total(text_lines(reply@)) <= u32::MAX,
    ensures
        r.0 == backend_up(text_lines(reply@)),
        r.1 == backend_total(text_lines(reply@)),
        r.0 <= r.1,
{
    let ls = lines_of(reply);
    let ghost lv = views(ls@);
    let mut up: u32 = 0;
    let mut total: u32 = 0;
    let mut i: usize = 0;
    while i < ls.len()
        invariant
            lv == views(ls@),
            lv == text_lines(reply@),
            backend_total(lv) <= u32::MAX,
            i <= ls@.len(),
            up == backend_up(lv.take(i as int)),
            total == backend_total(lv.take(i as int)),
        decreases ls@.len() - i,
    {
        let line = ls[i].as_str();
        assert(lv.take(i + 1).drop_last() =~= lv.take(i as int));
        assert(lv.take(i + 1).last() == line@);
        proof {
            lemma_backend_total_prefix(lv, i + 1);
            law_backend_up_le_total(lv.take(i + 1));
        }
        match is_backend_row(line) {
            Some(is_up) => {
                total = total + 1;
                if is_up {
                    up = up + 1;
                }
            },
            None => {},
        }
        i = i + 1;
    }
    assert(lv.take(ls@.len() as int) =~= lv);
    proof {
        law_backend_up_le_total(lv);
    }
    (up, total)
}

/// One address of `ip -j addr` output: its label, its flags (each the
/// flag's text, or `None` where a flag is not a string) and its local
/// address; `None` where the field is missing (or, for `flags`, not an
/// array).
#[derive(Clone, Debug)]
pub struct IpAddrInfo {
    pub label: Option<String>,
    pub flags: Option<Vec<Option<String>>>,
    pub local: Option<String>,
}

/// One interface of `ip -j addr` output: its `addr_info` array, `None`
/// where missing or not an array.
#[derive(Clone, Debug)]
pub struct IpInterface {
    pub addr_info: Option<Vec<IpAddrInfo>>,
}

/// The abstract value of an `IpAddrInfo`.
pub struct IpAddrInfoView {
    pub label: Option<Seq<char>>,
    pub flags: Option<Seq<Option<Seq<char>>>>,
    pub local: Option<Seq<char>>,
}

impl View for IpAddrInfo {
    type V = IpAddrInfoView;

    open spec fn view(&self) -> IpAddrInfoView {
        IpAddrInfoView {
            label: opt_text(self.label),
            flags: match self.flags {
                Some(fs) => Some(flag_views(fs@)),
                None => None,
            },
            local: opt_text(self.local),
        }
    }
}

/// The views of a sequence of flags.
pub open spec fn flag_views(fs: Seq<Option<String>>) -> Seq<Option<Seq<char>>> {
    fs.map_values(|f: Option<String>| opt_text(f))
}

/// Some flag reads `secondary`.
pub open spec fn has_secondary(fs: Seq<Option<Seq<char>>>) -> bool {
    exists|i: int| 0 <= i < fs.len() && #[trigger] fs[i] == Some("secondary"@)
}

/// The views of a sequence of addresses.
pub open spec fn addr_views(a: Seq<IpAddrInfo>) -> Seq<IpAddrInfoView> {
    a.map_values(|x: IpAddrInfo| x@)
}

/// The views of the interfaces: each interface's addresses, where it has
/// an address array.
pub open spec fn iface_views(ifs: Seq<IpInterface>) -> Seq<Option<Seq<IpAddrInfoView>>> {
    ifs.map_values(
        |i: IpInterface|
            match i.addr_info {
                Some(a) => Some(addr_views(a@)),
                None => None,
            },
    )
}

/// An address looks like a virtual one: it is flagged `secondary`, or its
/// label (empty where missing) holds a `:`.
pub open spec fn is_vip_candidate(a: IpAddrInfoView) -> bool {
    let label = match a.label {
        Some(l) => l,
        None => Seq::<char>::empty(),
    };
    let secondary = match a.flags {
        Some(fs) => has_secondary(fs),
        None => false,
    };
    secondary || contains_seq(label, ":"@)
}

/// An address whose label holds a `:` looks virtual whatever flags it
/// carries (an empty or any other flag list does not hide the label), and so
/// does one flagged `secondary`.
pub proof fn law_vip_candidates(a: IpAddrInfoView)
    ensures
        (a.label matches Some(l) && contains_seq(l, ":"@)) ==> is_vip_candidate(a),
        (a.flags matches Some(fs) && exists|i: int|
            0 <= i < fs.len() && #[trigger] fs[i] == Some("secondary"@)) ==> is_vip_candidate(a),
        a.label.unwrap_or(Seq::empty()).len() == 0 && a.flags is None ==> !is_vip_candidate(a),
{
    reveal_strlit(":");
    let label = match a.label {
        Some(l) => l,
        None => Seq::<char>::empty(),
    };
    if label.len() == 0 {
        assert(!contains_seq(label, ":"@));
    }
}

/// Among addresses, the first one whose label holds a `:` or that is
/// flagged `secondary`, and that has a local address, gives the virtual
/// address: its local address, where no earlier address is such a one.
pub proof fn law_first_labelled_address_is_vip(addrs: Seq<IpAddrInfoView>, i: int)
    requires
        0 <= i < addrs.len(),
        addrs[i].local is Some,
        (addrs[i].label matches Some(l) && contains_seq(l, ":"@)) || (addrs[i].flags matches Some(
            fs,
        ) && exists|k: int| 0 <= k < fs.len() && #[trigger] fs[k] == Some("secondary"@)),
        forall|j: int|
            0 <= j < i ==> (#[trigger] addrs[j]).local is None || (!(addrs[j].label matches Some(l)
                && contains_seq(l, ":"@)) && !(addrs[j].flags matches Some(fs) && exists|k: int|
                0 <= k < fs.len() && #[trigger] fs[k] == Some("secondary"@))),
    ensures
        vip_in_addrs(addrs) == addrs[i].local,
    decreases i,
{
    law_vip_candidates(addrs[i]);
    if i > 0 {
        let d = addrs.drop_first();
        assert forall|j: int| 0 <= j < i - 1 implies (#[trigger] d[j]).local is None || (!(
        d[j].label matches Some(l) && contains_seq(l, ":"@)) && !(d[j].flags matches Some(fs)
            && exists|k: int| 0 <= k < fs.len() && #[trigger] fs[k] == Some("secondary"@))) by {
            assert(d[j] == addrs[j + 1]);
        }
        assert(d[i - 1] == addrs[i]);
        law_first_labelled_address_is_vip(d, i - 1);
        let a0 = addrs[0];
        if a0.local is Some {
            let label = match a0.label {
                Some(l) => l,
                None => Seq::<char>::empty(),
            };
            if a0.label is None {
                law_vip_candidates(a0);
                assert(!contains_seq(label, ":"@)) by {
                    reveal_strlit(":");
                    if contains_seq(label, ":"@) {
                        let k = choose|k: int|
                            0 <= k <= label.len() - ":"@.len() && #[trigger] label.subrange(
                                k,
                                k + ":"@.len(),
                            ) == ":"@;
                    }
                }
            }
            assert(!is_vip_candidate(a0));
        }
    }
}

/// The local address of the first address that looks virtual and has one.
pub open spec fn vip_in_addrs(addrs: Seq<IpAddrInfoView>) -> Option<Seq<char>>
    decreases addrs.len(),
{
    if addrs.len() == 0 {
        None
    } else if is_vip_candidate(addrs[0]) && addrs[0].local is Some {
        addrs[0].local
    } else {
        vip_in_addrs(addrs.drop_first())
    }
}

/// The first virtual address over the interfaces, in order.
pub open spec fn vip_in_ifaces(ifs: Seq<Option<Seq<IpAddrInfoView>>>) -> Option<Seq<char>>
    decreases ifs.len(),
{
    if ifs.len() == 0 {
        None
    } else {
        match ifs[0] {
            Some(addrs) => match vip_in_addrs(addrs) {
                Some(v) => Some(v),
                None => vip_in_ifaces(ifs.drop_first()),
            },
            None => vip_in_ifaces(ifs.drop_first()),
        }
    }
}

fn has_secondary_flag(fs: &Vec<Option<String>>) -> (r: bool)
    ensures
        r == has_secondary(flag_views(fs@)),
{
    let secondary = String::from_str("secondary");
    let ghost fv = flag_views(fs@);
    let mut i: usize = 0;
    while i < fs.len()
        invariant
            fv == flag_views(fs@),
            secondary@ == "secondary"@,
            i <= fs@.len(),
            forall|j: int| 0 <= j < i ==> #[trigger] fv[j] != Some("secondary"@),
        decreases fs@.len() - i,
    {
        assert(fv[i as int] == opt_text(fs@[i as int]));
        match &fs[i] {
            Some(f) => {
                if *f == secondary {
                    assert(fv[i as int] == Some("secondary"@));
                    return true;
                }
            },
            None => {},
        }
        i = i + 1;
    }
    false
}

fn vip_candidate(a: &IpAddrInfo) -> (r: bool)
    ensures
        r == is_vip_candidate(a@),
{
    let secondary = match &a.flags {
        Some(fs) => has_secondary_flag(fs),
        None => false,
    };
    let colon = chars_of(":");
    let label = match &a.label {
        Some(l) => chars_of(l.as_str()),
        None => Vec::new(),
    };
    assert(label@ == match a@.label {
        Some(l) => l,
        None => Seq::<char>::empty(),
    });
    secondary || contains_chars(&label, &colon)
}

/// The virtual address found in `ip -j addr` output: the local address of
/// the first address, over the interfaces in order, that is flagged
/// `secondary` or whose label holds a `:`, and that has a local address.
pub fn vip_from_ip_json(ifaces: &Vec<IpInterface>) -> (r: Option<String>)
    ensures
        opt_text(r) == vip_in_ifaces(iface_views(ifaces@)),
{
    let ghost iv = iface_views(ifaces@);
    let mut i: usize = 0;
    assert(iv.skip(0) =~= iv);
    while i < ifaces.len()
        invariant
            iv == iface_views(ifaces@),
            i <= ifaces@.len(),
            vip_in_ifaces(iv) == vip_in_ifaces(iv.skip(i as int)),
        decreases ifaces@.len() - i,
    {
        assert(iv.skip(i as int).drop_first() =~= iv.skip(i + 1));
        assert(iv.skip(i as int)[0] == iv[i as int]);
        match &ifaces[i].addr_info {
            Some(addrs) => {
                let ghost av = addr_views(addrs@);
                assert(iv[i as int] == Some(av));
                let mut j: usize = 0;
                assert(av.skip(0) =~= av);
                while j < addrs.len()
                    invariant
                        av == addr_views(addrs@),
                        iv == iface_views(ifaces@),
                        i < ifaces@.len(),
                        iv[i as int] == Some(av),
                        vip_in_ifaces(iv) == vip_in_ifaces(iv.skip(i as int)),
                        iv.skip(i as int)[0] == iv[i as int],
                        j <= addrs@.len(),
                        vip_in_addrs(av) == vip_in_addrs(av.skip(j as int)),
                    decreases addrs@.len() - j,
                {
                    assert(av.skip(j as int).drop_first() =~= av.skip(j + 1));
                    assert(av.skip(j as int)[0] == addrs@[j as int]@);
                    let a = &addrs[j];
                    if vip_candidate(a) {
                        match &a.local {
                            Some(l) => {
                                return Some(l.clone());
                            },
                            None => {},
                        }
                    }
                    j = j + 1;
                }
                assert(av.skip(addrs@.len() as int) =~= Seq::<IpAddrInfoView>::empty());
            },
            None => {},
        }
        i = i + 1;
    }
    None
}

/// Some word after the first (the interface index, such as `2:`) holds a
/// `:`: the line carries an alias label such as `eth0:1`.
pub open spec fn has_alias_label(ws: Seq<Seq<char>>) -> bool {
    exists|i: int| 1 <= i < ws.len() && contains_seq(#[trigger] ws[i], ":"@)
}

/// The address a line of `ip -o addr` output shows for a virtual address:
/// where the line holds ` secondary ` or an alias label, and has at least
/// four words, the fourth word (the address) up to its first `/`.
pub open spec fn vip_of_line(line: Seq<char>) -> Option<Seq<char>> {
    if (contains_seq(line, " secondary "@) || has_alias_label(words(line))) && words(line).len() > 3 {
        Some(split_on(words(line)[3], '/')[0])
    } else {
        None
    }
}

fn alias_label_in(ws: &Vec<String>) -> (r: bool)
    ensures
        r == has_alias_label(views(ws@)),
{
    let colon = chars_of(":");
    let ghost wv = views(ws@);
    if ws.len() == 0 {
        return false;
    }
    let mut i: usize = 1;
    while i < ws.len()
        invariant
            wv == views(ws@),
            colon@ == ":"@,
            1 <= i <= ws@.len(),
            forall|j: int| 1 <= j < i ==> !contains_seq(#[trigger] wv[j], ":"@),
        decreases ws@.len() - i,
    {
        let cs = chars_of(ws[i].as_str());
        assert(wv[i as int] == ws@[i as int]@);
        if contains_chars(&cs, &colon) {
            return true;
        }
        i = i + 1;
    }
    false
}

/// The virtual address of the first line that shows one.
pub open spec fn vip_in_lines(ls: Seq<Seq<char>>) -> Option<Seq<char>>
    decreases ls.len(),
{
    if ls.len() == 0 {
        None
    } else if vip_of_line(ls[0]) is Some {
        vip_of_line(ls[0])
    } else {
        vip_in_lines(ls.drop_first())
    }
}

/// The virtual address found in `ip -o addr` output.
pub fn vip_from_ip_text(text: &str) -> (r: Option<String>)
    ensures
        opt_text(r) == vip_in_lines(text_lines(text@)),
{
    let ls = lines_of(text);
    let ghost lv = views(ls@);
    let secondary = chars_of(" secondary ");
    let mut i: usize = 0;
    assert(lv.skip(0) =~= lv);
    while i < ls.len()
        invariant
            lv == views(ls@),
            lv == text_lines(text@),
            secondary@ == " secondary "@,
            i <= ls@.len(),
            vip_in_lines(lv) == vip_in_lines(lv.skip(i as int)),
        decreases ls@.len() - i,
    {
        assert(lv.skip(i as int).drop_first() =~= lv.skip(i + 1));
        assert(lv.skip(i as int)[0] == ls@[i as int]@);
        let line = ls[i].as_str();
        let cs = chars_of(line);
        let ws = words_of(line);
        if contains_chars(&cs, &secondary) || alias_label_in(&ws) {
            if ws.len() > 3 {
                assert(views(ws@)[3] == ws@[3]@);
                let parts = split_str(ws[3].as_str(), '/');
                proof {
                    lemma_split_on_nonempty(ws@[3]@, '/');
                }
                assert(views(parts@)[0] == parts@[0]@);
                return Some(parts[0].clone());
            }
        }
        i = i + 1;
    }
    None
}

/// The keepalived virtual address: from the `ip -j` interfaces where they
/// were read and show one, else from the `ip -o` text where it was read and
/// shows one, else `-`.
pub open spec fn keepalived_vip(
    ifaces: Option<Seq<Option<Seq<IpAddrInfoView>>>>,
    text: Option<Seq<char>>,
) -> Seq<char> {
    let from_json = match ifaces {
        Some(ifs) => vip_in_ifaces(ifs),
        None => None,
    };
    let from_text = match text {
        Some(t) => vip_in_lines(text_lines(t)),
        None => None,
    };
    match from_json {
        Some(v) => v,
        None => match from_text {
            Some(v) => v,
            None => "-"@,
        },
    }
}

/// The keepalived virtual address from what `ip -j -4 addr show scope
/// global` gave (`None` where it failed or did not print a JSON array) and
/// what `ip -o -4 addr show scope global` printed (`None` where it failed).
pub fn detect_keepalived_vip(ifaces: Option<Vec<IpInterface>>, text: Option<String>) -> (r: String)
    ensures
        r@ == keepalived_vip(
            match ifaces {
                Some(v) => Some(iface_views(v@)),
                None => None,
            },
            opt_text(text),
        ),
{
    let from_json = match &ifaces {
        Some(v) => vip_from_ip_json(v),
        None => None,
    };
    match from_json {
        Some(v) => v,
        None => {
            let from_text = match &text {
                Some(t) => vip_from_ip_text(t.as_str()),
                None => None,
            };
            match from_text {
                Some(v) => v,
                None => String::from_str("-"),
            }
        },
    }
}

/// The interfaces that the JSON printed by `ip -j addr` describes, as
/// `IpInterface` values hold them: `None` where the bytes are not a JSON
/// array; a function of the bytes alone.
pub uninterp spec fn ip_json_ifaces(stdout: Seq<u8>) -> Option<Seq<Option<Seq<IpAddrInfoView>>>>;

/// Parses what `ip -j addr` printed with `serde_json::from_slice` into a
/// `serde_json::Value`, and reads it with `Value::as_array`, `Value::get` and
/// `Value::as_str`: each interface's `addr_info` array (`None` where missing
/// or not an array), and of each address its `label`, its `flags` (each
/// flag's text, `None` where a flag is not a string) and its `local`
/// address. The contract names that reading `ip_json_ifaces` and says
/// nothing more of it.
#[verifier::external_body]
pub fn parse_ip_json(stdout: &[u8]) -> (r: Option<Vec<IpInterface>>)
    ensures
        match r {
            Some(v) => ip_json_ifaces(stdout@) == Some(iface_views(v@)),
            None => ip_json_ifaces(stdout@) is None,
        },
{
    let value: serde_json::Value = serde_json::from_slice(stdout).ok()?;
    let text = |v: &serde_json::Value| Some(v.as_str()?.to_string());
    let addr = |a: &serde_json::Value| IpAddrInfo {
        label: a.get("label").and_then(text),
        flags: a.get("flags").and_then(|x| x.as_array()).map(|f| f.iter().map(text).collect()),
        local: a.get("local").and_then(text),
    };
    let ifaces = value.as_array()?.iter().map(|i| IpInterface {
        addr_info: i.get("addr_info").and_then(|x| x.as_array()).map(|a| a.iter().map(addr).collect()),
    });
    Some(ifaces.collect())
}

/// The virtual address that the `ip -j addr` output `stdout` shows, if any
/// (see `vip_from_ip_json`).
pub fn vip_from_ip_json_output(stdout: &[u8]) -> (r: Option<String>)
    ensures
        opt_text(r) == match ip_json_ifaces(stdout@) {
            Some(ifs) => vip_in_ifaces(ifs),
            None => None,
        },
{
    match parse_ip_json(stdout) {
        Some(ifs) => vip_from_ip_json(&ifs),
        None => None,
    }
}

/// The keepalived virtual address from the raw outputs: what
/// `ip -j -4 addr show scope global` printed (`None` where it failed) and
/// what `ip -o -4 addr show scope global` printed (`None` where it failed).
pub fn keepalived_vip_from_outputs(json_stdout: Option<&[u8]>, text: Option<String>) -> (r: String)
    ensures
        r@ == keepalived_vip(
            match json_stdout {
                Some(b) => ip_json_ifaces(b@),
                None => None,
            },
            opt_text(text),
        ),
{
    let ifaces = match json_stdout {
        Some(b) => parse_ip_json(b),
        None => None,
    };
    detect_keepalived_vip(ifaces, text)
}

} // verus!
