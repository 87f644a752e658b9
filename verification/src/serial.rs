//! Serial port listing: which ports are offered, how CH340 adapters are marked,
//! and which port stays selected after a rescan.
use vstd::prelude::*;
use crate::text::{chars_contain, chars_of, contains_text, split_char, split_chars, string_of, string_views_are};

verus! {

/// A serial port as the system lists it: its name and, for a USB port, its vendor
/// and product ids.
pub struct PortInfo {
    pub port_name: String,
    pub usb_ids: Option<(u16, u16)>,
}

/// The outcome of a port scan: the names offered, and the port selected.
pub struct PortScan {
    pub available_ports: Vec<String>,
    pub selected_port: Option<String>,
}

/// The USB ids of a CH340 adapter.
pub open spec fn is_ch340(usb_ids: Option<(u16, u16)>) -> bool {
    match usb_ids {
        Some((vid, pid)) => (vid == 0x1A86 && pid == 0x7523) || (vid == 0x4348 && pid == 0x5523),
        None => false,
    }
}

/// The name offered for a port: CH340 adapters carry a tab and `(CH340)`.
pub open spec fn port_label(p: PortInfo) -> Seq<char> {
    if is_ch340(p.usb_ids) {
        p.port_name@ + "\t(CH340)"@
    } else {
        p.port_name@
    }
}

/// The names offered for `ports`, in order.
pub open spec fn port_labels(ports: Seq<PortInfo>) -> Seq<Seq<char>> {
    ports.map_values(|p: PortInfo| port_label(p))
}

/// A port name without the mark after its tab.
pub open spec fn base_name(label: Seq<char>) -> Seq<char> {
    split_char(label, '\t')[0]
}

/// The name offered for the first CH340 adapter.
pub open spec fn first_ch340(ports: Seq<PortInfo>) -> Option<Seq<char>>
    decreases ports.len(),
{
    if ports.len() == 0 {
        None
    } else if is_ch340(ports[0].usb_ids) {
        Some(port_label(ports[0]))
    } else {
        first_ch340(ports.drop_first())
    }
}

/// The last offered name whose base name is `base`.
pub open spec fn last_with_base(labels: Seq<Seq<char>>, base: Seq<char>) -> Option<Seq<char>>
    decreases labels.len(),
{
    if labels.len() == 0 {
        None
    } else if base_name(labels.last()) == base {
        Some(labels.last())
    } else {
        last_with_base(labels.drop_last(), base)
    }
}

/// The port selected after a scan of `ports`: the first CH340 adapter where there is
/// one and the selection is none or not a CH340; then, where the selection is not
/// offered as it stands, the offered name with the same base name, if any.
pub open spec fn selected_after_scan(ports: Seq<PortInfo>, selected: Option<Seq<char>>) -> Option<
    Seq<char>,
> {
    let labels = port_labels(ports);
    let chosen = match first_ch340(ports) {
        Some(c) => match selected {
            Some(s) => if contains_text(s, "CH340"@) {
                selected
            } else {
                Some(c)
            },
            None => Some(c),
        },
        None => selected,
    };
    match chosen {
        Some(s) => if labels.contains(s) {
            chosen
        } else {
            match last_with_base(labels, base_name(s)) {
                Some(full) => Some(full),
                None => chosen,
            }
        },
        None => None,
    }
}

/// The views of an optional string.
pub open spec fn opt_view(s: Option<String>) -> Option<Seq<char>> {
    match s {
        Some(x) => Some(x@),
        None => None,
    }
}

fn label_of(p: &PortInfo) -> (res: String)
    ensures
        res@ == port_label(*p),
{
    let ch340 = match p.usb_ids {
        Some((vid, pid)) => (vid == 0x1A86 && pid == 0x7523) || (vid == 0x4348 && pid == 0x5523),
        None => false,
    };
    if ch340 {
        let mut s = p.port_name.clone();
        s.append("\t(CH340)");
        s
    } else {
        p.port_name.clone()
    }
}

/// A port name without the mark after its tab.
pub fn port_base_name(label: &str) -> (res: String)
    ensures
        res@ == base_name(label@),
{
    let chars = chars_of(label);
    let parts = split_chars(chars.as_slice(), '\t');
    proof {
        crate::text::lemma_split_nonempty(label@, '\t');
    }
    string_of(parts[0].as_slice())
}

fn labels_contain(labels: &Vec<String>, s: &str) -> (res: bool)
    ensures
        res == labels@.map_values(|l: String| l@).contains(s@),
{
    let r = crate::text::strings_contain(labels, s);
    proof {
        let views = labels@.map_values(|l: String| l@);
        if r {
            let i = choose|i: int| 0 <= i < labels@.len() && (#[trigger] labels@[i])@ == s@;
            assert(views[i] == s@);
        } else if views.contains(s@) {
            let i = choose|i: int| 0 <= i < views.len() && views[i] == s@;
            assert(labels@[i]@ == s@);
        }
    }
    r
}

/// Lists the ports and keeps the selection fitting: CH340 adapters are marked and
/// preferred, and a selection whose mark changed is matched by its base name.
pub fn scan_ports(ports: &Vec<PortInfo>, selected_port: Option<String>) -> (res: PortScan)
    ensures
        res.available_ports@.map_values(|l: String| l@) == port_labels(ports@),
        opt_view(res.selected_port) == selected_after_scan(ports@, opt_view(selected_port)),
{
    let ghost labels_spec = port_labels(ports@);
    let mut available: Vec<String> = Vec::new();
    let mut first: Option<String> = None;
    let mut bases: Vec<String> = Vec::new();
    assert(ports@.skip(0) =~= ports@);
    for i in 0..ports.len()
        invariant
            labels_spec == port_labels(ports@),
            available@.map_values(|l: String| l@) == labels_spec.take(i as int),
            bases@.len() == i,
            forall|k: int| 0 <= k < i ==> (#[trigger] bases@[k])@ == base_name(labels_spec[k]),
            first_ch340(ports@) == match first {
                Some(f) => Some(f@),
                None => first_ch340(ports@.skip(i as int)),
            },
    {
        let p = &ports[i];
        let label = label_of(p);
        let ch340 = match p.usb_ids {
            Some((vid, pid)) => (vid == 0x1A86 && pid == 0x7523) || (vid == 0x4348 && pid
                == 0x5523),
            None => false,
        };
        assert(ports@.skip(i as int)[0] == ports@[i as int]);
        assert(ports@.skip(i as int).drop_first() =~= ports@.skip(i + 1));
        if ch340 && first.is_none() {
            first = Some(label.clone());
        }
        bases.push(port_base_name(label.as_str()));
        let ghost before = available@;
        assert(label@ == labels_spec[i as int]);
        available.push(label);
        assert(available@.map_values(|l: String| l@) =~= before.map_values(|l: String| l@).push(
            labels_spec[i as int],
        ));
        assert(labels_spec.take(i + 1) =~= labels_spec.take(i as int).push(labels_spec[i as int]));
    }
    assert(labels_spec.take(ports@.len() as int) =~= labels_spec);
    assert(ports@.skip(ports@.len() as int).len() == 0);
    let chosen: Option<String> = match first {
        Some(c) => match selected_port {
            Some(s) => {
                let sc = chars_of(s.as_str());
                let mark = chars_of("CH340");
                if chars_contain(sc.as_slice(), mark.as_slice()) {
                    Some(s)
                } else {
                    Some(c)
                }
            },
            None => Some(c),
        },
        None => selected_port,
    };
    let selected = match chosen {
        Some(s) => {
            if labels_contain(&available, s.as_str()) {
                Some(s)
            } else {
                let base = port_base_name(s.as_str());
                let base_chars = chars_of(base.as_str());
                let mut found: Option<String> = None;
                let mut j: usize = 0;
                let n = available.len();
                assert(labels_spec.take(0) =~= Seq::<Seq<char>>::empty());
                while j < n
                    invariant
                        n == available@.len() == bases@.len() == labels_spec.len(),
                        j <= n,
                        available@.map_values(|l: String| l@) == labels_spec,
                        forall|k: int| 0 <= k < n ==> (#[trigger] bases@[k])@ == base_name(labels_spec[k]),
                        base_chars@ == base_name(s@),
                        opt_view(found) == last_with_base(labels_spec.take(j as int), base_name(s@)),
                    decreases n - j,
                {
                    assert(labels_spec.take(j + 1).drop_last() =~= labels_spec.take(j as int));
                    assert(labels_spec.take(j + 1).last() == labels_spec[j as int]);
                    assert(available@[j as int]@ == labels_spec[j as int]);
                    let b = chars_of(bases[j].as_str());
                    if crate::text::chars_equal(b.as_slice(), base_chars.as_slice()) {
                        found = Some(available[j].clone());
                    }
                    j += 1;
                }
                assert(labels_spec.take(n as int) =~= labels_spec);
                match found {
                    Some(full) => Some(full),
                    None => Some(s),
                }
            }
        },
        None => None,
    };
    PortScan { available_ports: available, selected_port: selected }
}

/// A selection that names a CH340 adapter and is still offered survives a rescan.
pub proof fn lemma_ch340_selection_kept(ports: Seq<PortInfo>, s: Seq<char>)
    requires
        contains_text(s, "CH340"@),
        port_labels(ports).contains(s),
    ensures
        selected_after_scan(ports, Some(s)) == Some(s),
{
}

/// Where a CH340 adapter is present and nothing, or a port that is no CH340, was
/// selected, the first CH340 adapter is selected after a rescan.
pub proof fn lemma_first_ch340_preferred(ports: Seq<PortInfo>, selected: Option<Seq<char>>)
    requires
        first_ch340(ports) is Some,
        selected matches Some(s) ==> !contains_text(s, "CH340"@),
    ensures
        selected_after_scan(ports, selected) == first_ch340(ports),
{
    lemma_first_ch340_offered(ports);
}

/// The first CH340 adapter's name is among the names offered.
proof fn lemma_first_ch340_offered(ports: Seq<PortInfo>)
    ensures
        first_ch340(ports) matches Some(l) ==> port_labels(ports).contains(l),
    decreases ports.len(),
{
    if ports.len() > 0 {
        if is_ch340(ports[0].usb_ids) {
            assert(port_labels(ports)[0] == port_label(ports[0]));
        } else {
            lemma_first_ch340_offered(ports.drop_first());
            if let Some(l) = first_ch340(ports.drop_first()) {
                let j = choose|j: int| 0 <= j < ports.len() - 1 && port_labels(ports.drop_first())[j] == l;
                assert(port_labels(ports)[j + 1] == port_labels(ports.drop_first())[j]);
            }
        }
    }
}

/// A selection that is offered as it stands, without any CH340 adapter present,
/// is kept by a rescan.
pub proof fn lemma_offered_selection_kept(ports: Seq<PortInfo>, s: Seq<char>)
    requires
        first_ch340(ports) is None,
        port_labels(ports).contains(s),
    ensures
        selected_after_scan(ports, Some(s)) == Some(s),
{
}

} // verus!
