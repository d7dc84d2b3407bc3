//! The replacement for the vendor's radio reset script, and whether it is in place already.

use vstd::prelude::*;

use crate::text::{is_space, law_words, lines, same, split_lines, split_whitespace, texts, words};

verus! {

pub const TARGET: &'static str = "/app/script/reset_wifi.sh";

pub const REPLACEMENT: &'static str = "/opt/kibble/reset_wifi_noop.sh";

/// The script that stands in for the vendor's: it records the request and touches nothing.
pub const REPLACEMENT_SCRIPT: &'static str = "#!/bin/sh\n# Neutralized by kibble (agent/src/resetguard.rs) -- see docs/35-wifi-tug-of-war.md. The real\n# reset_wifi.sh power-cycles the Wi-Fi radio's GPIO and fully restarts wpa_supplicant/udhcpc;\n# ctrl calls it roughly every 180s on its own *healthy* code path, not in response to an actual\n# fault. This records every time it was requested without touching the radio or the link.\necho \"$(date +%s) ctrl requested reset_wifi.sh $*\" >> /opt/kibble/reset_wifi_suppressed.log\nexit 0\n";

/// Whether a line of the mount table mounts `source` on `target`.
pub open spec fn mounts_pair(line: Seq<char>, source: Seq<char>, target: Seq<char>) -> bool {
    let ws = words(line);
    ws.len() >= 2 && ws[0] == source && ws[1] == target
}

/// Whether `target` is already bind-mounted from `replacement`. Another mount on `target` does not
/// count.
pub fn already_mounted_in(mounts: &str, replacement: &str, target: &str) -> (r: bool)
    ensures
        r == exists|i: int|
            0 <= i < lines(mounts@).len() && mounts_pair(
                #[trigger] lines(mounts@)[i],
                replacement@,
                target@,
            ),
{
    let ls: Vec<&str> = split_lines(mounts);
    let ghost all = lines(mounts@);
    let mut i: usize = 0;
    assert(texts(ls@).len() == ls@.len());
    while i < ls.len()
        invariant
            i <= ls.len(),
            all == texts(ls@),
            all == lines(mounts@),
            forall|j: int| 0 <= j < i ==> !mounts_pair(#[trigger] all[j], replacement@, target@),
        decreases ls.len() - i,
    {
        let ws: Vec<&str> = split_whitespace(ls[i]);
        assert(all[i as int] == ls@[i as int]@);
        assert(texts(ws@).len() == ws@.len());
        if ws.len() >= 2 {
            assert(texts(ws@)[0] == ws@[0]@ && texts(ws@)[1] == ws@[1]@);
            if same(ws[0], replacement) && same(ws[1], target) {
                return true;
            }
        }
        i = i + 1;
    }
    false
}

/// A line of the mount table names what is mounted and where, in this order, and nothing else counts.
pub proof fn law_mount_lines(source: Seq<char>, target: Seq<char>, rest: Seq<char>, s: Seq<char>, t: Seq<char>)
    requires
        source.len() > 0,
        target.len() > 0,
        forall|i: int| 0 <= i < source.len() ==> !is_space(#[trigger] source[i]),
        forall|i: int| 0 <= i < target.len() ==> !is_space(#[trigger] target[i]),
    ensures
        mounts_pair(source + seq![' '] + (target + seq![' '] + rest), s, t) <==> s == source && t == target,
{
    law_words(source, ' ', target + seq![' '] + rest);
    law_words(target, ' ', rest);
    let ws = words(source + seq![' '] + (target + seq![' '] + rest));
    assert(ws[0] == source && ws[1] == target);
}

} // verus!
