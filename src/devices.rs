//! Capture devices: reading the encoder's device listing and choosing the
//! device to record from.
use vstd::prelude::*;

verus! {

/// A capture device. `id` is handed verbatim to the recorder.
#[derive(Debug, Clone)]
pub struct MicDevice {
    pub id: String,
    pub name: String,
}

/// `t` occurs in `s` at position `p`.
pub open spec fn occurs_at(s: Seq<char>, t: Seq<char>, p: int) -> bool {
    0 <= p && p + t.len() <= s.len() && s.subrange(p, p + t.len()) == t
}

/// `t` occurs somewhere in `s`.
pub open spec fn contains_text(s: Seq<char>, t: Seq<char>) -> bool {
    exists|p: int| occurs_at(s, t, p)
}

/// The first position at or after `from` that holds `c`.
pub open spec fn find_char(s: Seq<char>, c: char, from: int) -> Option<int>
    decreases s.len() - from,
{
    if from < 0 || from >= s.len() {
        None
    } else if s[from] == c {
        Some(from)
    } else {
        find_char(s, c, from + 1)
    }
}

/// The device name announced by one line of the listing: a line about an
/// audio device that is not an alternative name, whose first double-quoted
/// text is not empty.
pub open spec fn device_name_of(line: Seq<char>) -> Option<Seq<char>> {
    if contains_text(line, "Alternative name"@) || !contains_text(line, "(audio)"@) {
        None
    } else {
        match find_char(line, '"', 0) {
            None => None,
            Some(a) => match find_char(line, '"', a + 1) {
                None => None,
                Some(b) => if b > a + 1 {
                    Some(line.subrange(a + 1, b))
                } else {
                    None
                },
            },
        }
    }
}

/// The devices announced by a listing, in order, as (id, name) pairs; the
/// id is the name prefixed with `audio=`.
pub open spec fn devices_of(lines: Seq<Seq<char>>) -> Seq<(Seq<char>, Seq<char>)>
    decreases lines.len(),
{
    if lines.len() == 0 {
        Seq::empty()
    } else {
        let rest = devices_of(lines.drop_last());
        match device_name_of(lines.last()) {
            Some(n) => rest.push(("audio="@ + n, n)),
            None => rest,
        }
    }
}

pub open spec fn device_view(d: MicDevice) -> (Seq<char>, Seq<char>) {
    (d.id@, d.name@)
}

fn occurs_in(s: &str, n: usize, t: &str, m: usize) -> (r: bool)
    requires
        n == s@.len(),
        m == t@.len(),
    ensures
        r == contains_text(s@, t@),
{
    if m > n {
        assert forall|p: int| !occurs_at(s@, t@, p) by {}
        return false;
    }
    let mut p: usize = 0;
    while p <= n - m
        invariant
            n == s@.len(),
            m == t@.len(),
            m <= n,
            p <= n - m + 1,
            forall|q: int| 0 <= q < p ==> !occurs_at(s@, t@, q),
        decreases n - m + 1 - p,
    {
        let mut k: usize = 0;
        let mut same = true;
        while k < m
            invariant
                n == s@.len(),
                m == t@.len(),
                p + m <= n,
                k <= m,
                same == forall|j: int| 0 <= j < k ==> s@[p + j] == t@[j],
            decreases m - k,
        {
            if s.get_char(p + k) != t.get_char(k) {
                same = false;
            }
            k = k + 1;
        }
        if same {
            assert(s@.subrange(p as int, p + m) =~= t@);
            assert(occurs_at(s@, t@, p as int));
            return true;
        }
        assert(!occurs_at(s@, t@, p as int)) by {
            if s@.subrange(p as int, p + m) == t@ {
                assert forall|j: int| 0 <= j < m implies s@[p + j] == t@[j] by {
                    assert(s@.subrange(p as int, p + m)[j] == s@[p + j]);
                }
            }
        }
        p = p + 1;
    }
    assert forall|q: int| !occurs_at(s@, t@, q) by {}
    false
}

fn find_quote(s: &str, n: usize, from: usize) -> (r: Option<usize>)
    requires
        n == s@.len(),
    ensures
        match r {
            Some(i) => find_char(s@, '"', from as int) == Some(i as int),
            None => find_char(s@, '"', from as int) is None,
        },
        r matches Some(i) ==> from <= i < n,
{
    let mut i = from;
    while i < n
        invariant
            n == s@.len(),
            from <= i,
            find_char(s@, '"', from as int) == find_char(s@, '"', i as int),
        decreases n - i,
    {
        if s.get_char(i) == '"' {
            return Some(i);
        }
        i = i + 1;
    }
    None
}

/// The device named on one line of the listing, if any.
pub fn device_on_line(line: &str) -> (r: Option<MicDevice>)
    ensures
        match r {
            Some(d) => device_name_of(line@) == Some(d.name@) && d.id@ == "audio="@ + d.name@,
            None => device_name_of(line@) is None,
        },
{
    let n = line.unicode_len();
    let alt = "Alternative name";
    let audio = "(audio)";
    if occurs_in(line, n, alt, alt.unicode_len()) || !occurs_in(line, n, audio, audio.unicode_len()) {
        return None;
    }
    let a = match find_quote(line, n, 0) {
        Some(a) => a,
        None => {
            return None;
        },
    };
    let b = match find_quote(line, n, a + 1) {
        Some(b) => b,
        None => {
            return None;
        },
    };
    if b <= a + 1 {
        return None;
    }
    let name = line.substring_char(a + 1, b);
    let id = "audio=".to_owned().concat(name);
    Some(MicDevice { id, name: name.to_owned() })
}

/// Reads the encoder's device listing, one line per entry, and returns
/// the audio capture devices it names, in order.
pub fn parse_dshow_devices(lines: &Vec<String>) -> (r: Vec<MicDevice>)
    ensures
        r@.map_values(|d: MicDevice| device_view(d)) == devices_of(lines@.map_values(|l: String| l@)),
{
    let ghost views = lines@.map_values(|l: String| l@);
    let mut out: Vec<MicDevice> = Vec::new();
    let mut i: usize = 0;
    while i < lines.len()
        invariant
            i <= lines@.len(),
            views == lines@.map_values(|l: String| l@),
            out@.map_values(|d: MicDevice| device_view(d)) == devices_of(views.subrange(0, i as int)),
        decreases lines@.len() - i,
    {
        let ghost before = out@;
        assert(views.subrange(0, i + 1).drop_last() =~= views.subrange(0, i as int));
        assert(views.subrange(0, i + 1).last() == lines@[i as int]@);
        match device_on_line(lines[i].as_str()) {
            Some(d) => {
                out.push(d);
                assert(out@.map_values(|d: MicDevice| device_view(d)) =~= before.map_values(
                    |d: MicDevice| device_view(d),
                ).push(device_view(d)));
            },
            None => {},
        }
        i = i + 1;
    }
    assert(views.subrange(0, lines@.len() as int) =~= views);
    out
}

/// The device to record from: the user's selection, else the first
/// device listed, else none (recording is skipped).
pub fn resolve_device(selected: Option<String>, devices: &Vec<MicDevice>) -> (r: Option<String>)
    ensures
        r == match selected {
            Some(s) => Some(s),
            None => if devices@.len() > 0 {
                Some(devices@[0].id)
            } else {
                None
            },
        },
{
    match selected {
        Some(s) => Some(s),
        None => {
            if devices.len() > 0 {
                Some(devices[0].id.clone())
            } else {
                None
            }
        },
    }
}

/// The device choice sent by the presentation layer: `default` asks for
/// the fallback (no explicit device), anything else is a device id.
pub fn selection_from_ui(value: &str) -> (r: Option<String>)
    ensures
        r is None <==> value@ == "default"@,
        r matches Some(s) ==> s@ == value@,
{
    let v = value.to_owned();
    if v == "default".to_owned() {
        None
    } else {
        Some(v)
    }
}

} // verus!
