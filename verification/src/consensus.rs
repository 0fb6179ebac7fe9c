//! Reading what the daemon reports of the consensus: the relays' entries
//! and the bandwidth weights.

use crate::error::Error;
use crate::ipnet::{parse_address, spec_parse_address, IpAddress};
use crate::node_selection::{Router, RouterView};
use crate::strmap::StrMap;
use crate::text::{
    chars_of, find_char, first_index, has_prefix, lines, parse_i64, parse_u64, slice_of,
    spec_lines, spec_parse_i64, spec_parse_u64, spec_words, string_of, views, words,
};
use vstd::prelude::*;

verus! {

/// The value of a character of the base64 alphabet.
pub open spec fn sextet(c: char) -> Option<u8> {
    if 'A' <= c && c <= 'Z' {
        Some((c as u8 - 65) as u8)
    } else if 'a' <= c && c <= 'z' {
        Some((c as u8 - 97 + 26) as u8)
    } else if '0' <= c && c <= '9' {
        Some((c as u8 - 48 + 52) as u8)
    } else if c == '+' {
        Some(62u8)
    } else if c == '/' {
        Some(63u8)
    } else {
        None
    }
}

/// `s` without the equals signs at its end.
pub open spec fn without_padding(s: Seq<char>) -> Seq<char>
    decreases s.len(),
{
    if s.len() > 0 && s.last() == '=' {
        without_padding(s.drop_last())
    } else {
        s
    }
}

/// The bytes that the six-bit values `v` write: each four values make
/// three bytes, and of the values left over at the end three make two bytes
/// and two make one.
pub open spec fn decode_sextets(v: Seq<u8>) -> Seq<u8>
    decreases v.len(),
{
    if v.len() >= 4 {
        seq![
            (v[0] * 4 + v[1] / 16) as u8,
            ((v[1] % 16) * 16 + v[2] / 4) as u8,
            ((v[2] % 4) * 64 + v[3]) as u8,
        ] + decode_sextets(v.skip(4))
    } else if v.len() == 3 {
        seq![(v[0] * 4 + v[1] / 16) as u8, ((v[1] % 16) * 16 + v[2] / 4) as u8]
    } else if v.len() == 2 {
        seq![(v[0] * 4 + v[1] / 16) as u8]
    } else {
        Seq::empty()
    }
}

/// Whether every character of `s` is of the base64 alphabet.
pub open spec fn all_base64(s: Seq<char>) -> bool {
    forall|i: int| 0 <= i < s.len() ==> sextet(#[trigger] s[i]) is Some
}

/// The bytes that the base64 text `s` writes, padded or not; `None` where
/// `s` holds a character outside the alphabet before its padding.
pub open spec fn spec_base64_decode(s: Seq<char>) -> Option<Seq<u8>> {
    let t = without_padding(s);
    if all_base64(t) {
        Some(decode_sextets(Seq::new(t.len(), |i: int| sextet(t[i])->0)))
    } else {
        None
    }
}

/// The two upper-case hexadecimal digits of each byte of `bytes`.
pub open spec fn hex_upper(bytes: Seq<u8>) -> Seq<char> {
    Seq::new(
        bytes.len() * 2,
        |i: int|
            hex_digit(
                if i % 2 == 0 {
                    bytes[i / 2] as int / 16
                } else {
                    bytes[i / 2] as int % 16
                },
            ),
    )
}

/// The upper-case hexadecimal digit of value `d`.
pub open spec fn hex_digit(d: int) -> char {
    if d < 10 {
        ((48 + d) as u8) as char
    } else {
        ((55 + d) as u8) as char
    }
}

/// The fingerprint that the base64 identity `b64` of a relay writes:
/// its bytes in upper-case hexadecimal; empty where `b64` is not base64.
pub open spec fn spec_fingerprint(b64: Seq<char>) -> Seq<char> {
    match spec_base64_decode(b64) {
        Some(bytes) => hex_upper(bytes),
        None => Seq::empty(),
    }
}

/// The value of a character of the base64 alphabet.
pub fn sextet_of(c: char) -> (r: Option<u8>)
    ensures
        r == sextet(c),
        r is Some ==> r->0 < 64,
{
    if 'A' <= c && c <= 'Z' {
        Some(c as u8 - 65)
    } else if 'a' <= c && c <= 'z' {
        Some(c as u8 - 97 + 26)
    } else if '0' <= c && c <= '9' {
        Some(c as u8 - 48 + 52)
    } else if c == '+' {
        Some(62)
    } else if c == '/' {
        Some(63)
    } else {
        None
    }
}

/// The bytes that the base64 text `input` writes.
pub fn base64_decode(input: &str) -> (r: Option<Vec<u8>>)
    ensures
        match r {
            Some(bytes) => spec_base64_decode(input@) == Some(bytes@),
            None => spec_base64_decode(input@) is None,
        },
{
    let v = chars_of(input);
    let mut end: usize = v.len();
    proof {
        assert(v@.take(end as int) =~= v@);
    }
    while end > 0 && v[end - 1] == '='
        invariant
            0 <= end <= v@.len(),
            without_padding(v@) == without_padding(v@.take(end as int)),
        decreases end,
    {
        proof {
            assert(v@.take(end as int).drop_last() =~= v@.take(end - 1));
        }
        end -= 1;
    }
    let ghost t = v@.take(end as int);
    proof {
        assert(without_padding(v@) == t);
    }
    let mut six: Vec<u8> = Vec::new();
    let mut i: usize = 0;
    while i < end
        invariant
            0 <= i <= end <= v@.len(),
            v@ == input@,
            t == v@.take(end as int),
            without_padding(input@) == t,
            six@.len() == i,
            forall|j: int| 0 <= j < i ==> sextet(t[j]) == Some(#[trigger] six@[j]) && six@[j] < 64,
        decreases end - i,
    {
        match sextet_of(v[i]) {
            Some(x) => {
                six.push(x);
            },
            None => {
                assert(sextet(t[i as int]) is None);
                return None;
            },
        }
        i += 1;
    }
    proof {
        assert forall|k: int| 0 <= k < t.len() implies sextet(#[trigger] t[k]) is Some by {
            assert(six@[k] < 64);
        }
        assert(six@ =~= Seq::new(t.len(), |k: int| sextet(t[k])->0));
        assert(all_base64(t));
        assert(spec_base64_decode(input@) == Some(decode_sextets(six@)));
    }
    let mut out: Vec<u8> = Vec::new();
    let n = six.len();
    let mut k: usize = 0;
    proof {
        assert(six@.skip(0) =~= six@);
    }
    while n - k >= 4
        invariant
            0 <= k <= n,
            n == six@.len(),
            forall|j: int| 0 <= j < n ==> #[trigger] six@[j] < 64,
            spec_base64_decode(input@) == Some(decode_sextets(six@)),
            decode_sextets(six@) == out@ + decode_sextets(six@.skip(k as int)),
        decreases n - k,
    {
        let a = six[k];
        let b = six[k + 1];
        let c = six[k + 2];
        let d = six[k + 3];
        let ghost before = out@;
        out.push(a * 4 + b / 16);
        out.push((b % 16) * 16 + c / 4);
        out.push((c % 4) * 64 + d);
        proof {
            let rest = six@.skip(k as int);
            assert(rest[0] == a && rest[1] == b && rest[2] == c && rest[3] == d);
            assert(rest.skip(4) =~= six@.skip(k + 4));
            assert(out@ =~= before + seq![
                (a * 4 + b / 16) as u8,
                ((b % 16) * 16 + c / 4) as u8,
                ((c % 4) * 64 + d) as u8,
            ]);
        }
        k += 4;
    }
    let ghost before = out@;
    let ghost rest = six@.skip(k as int);
    if n - k == 3 {
        let a = six[k];
        let b = six[k + 1];
        let c = six[k + 2];
        out.push(a * 4 + b / 16);
        out.push((b % 16) * 16 + c / 4);
        proof {
            assert(rest[0] == a && rest[1] == b && rest[2] == c);
            assert(out@ =~= before + decode_sextets(rest));
        }
    } else if n - k == 2 {
        let a = six[k];
        let b = six[k + 1];
        out.push(a * 4 + b / 16);
        proof {
            assert(rest[0] == a && rest[1] == b);
            assert(out@ =~= before + decode_sextets(rest));
        }
    } else {
        proof {
            assert(out@ =~= before + decode_sextets(rest));
        }
    }
    Some(out)
}

/// The upper-case hexadecimal digit of value `d`.
pub fn hex_digit_of(d: u8) -> (c: char)
    requires
        d < 16,
    ensures
        c == hex_digit(d as int),
{
    if d < 10 {
        (48 + d) as char
    } else {
        (55 + d) as char
    }
}

/// The fingerprint that the base64 identity `b64` of a relay writes.
pub fn decode_base64_fingerprint(b64: &str) -> (r: String)
    ensures
        r@ == spec_fingerprint(b64@),
{
    let bytes: Vec<u8> = match base64_decode(b64) {
        Some(b) => b,
        None => Vec::new(),
    };
    let mut out = String::new();
    let mut i: usize = 0;
    while i < bytes.len()
        invariant
            0 <= i <= bytes@.len(),
            out@ == hex_upper(bytes@).take(2 * i),
        decreases bytes@.len() - i,
    {
        let b = bytes[i];
        let ghost prev = out@;
        out.push(hex_digit_of(b / 16));
        out.push(hex_digit_of(b % 16));
        proof {
            let h = hex_upper(bytes@);
            assert(h[2 * i] == hex_digit((b / 16) as int));
            assert(h[2 * i + 1] == hex_digit((b % 16) as int));
            assert(out@ =~= h.take(2 * i + 2));
        }
        i += 1;
    }
    proof {
        assert(hex_upper(bytes@).take(2 * bytes@.len() as int) =~= hex_upper(bytes@));
        if spec_base64_decode(b64@) is None {
            assert(hex_upper(bytes@) =~= Seq::<char>::empty());
        }
    }
    out
}

/// The relay that the words of an `r` line describe, where there are at
/// least eight of them: the second is the nickname, the third the identity
/// in base64, and the seventh, after the digest and the date and time of
/// publication, the address, for which 0.0.0.0 stands where it cannot be
/// read.
pub open spec fn r_line(ws: Seq<Seq<char>>) -> Option<RouterView> {
    if ws.len() >= 8 {
        Some(
            RouterView {
                fingerprint: spec_fingerprint(ws[2]),
                nickname: ws[1],
                address: match spec_parse_address(ws[6]) {
                    Some(a) => a,
                    None => IpAddress::V4(0),
                },
                or_addresses: Seq::empty(),
                flags: Seq::empty(),
                bandwidth: None,
                measured: None,
            },
        )
    } else {
        None
    }
}

/// The relay after one word of a `w` line: `Bandwidth=` and `Measured=`,
/// followed by a number, set the declared and the measured bandwidth.
pub open spec fn w_word(r: RouterView, word: Seq<char>) -> RouterView {
    let i = first_index(word, '=');
    if 0 <= i < word.len() {
        match spec_parse_u64(word.skip(i + 1)) {
            Some(v) => if word.take(i) == "Bandwidth"@ {
                RouterView { bandwidth: Some(v), ..r }
            } else if word.take(i) == "Measured"@ {
                RouterView { measured: Some(v), ..r }
            } else {
                r
            },
            None => r,
        }
    } else {
        r
    }
}

/// The relay after the words of a `w` line, taken in order.
pub open spec fn w_line(r: RouterView, ws: Seq<Seq<char>>) -> RouterView
    decreases ws.len(),
{
    if ws.len() == 0 {
        r
    } else {
        w_word(w_line(r, ws.drop_last()), ws.last())
    }
}

/// What has been read of the relays' entries: the relays that are
/// complete, and the one whose lines are being read.
pub ghost struct StatusState {
    pub done: Seq<RouterView>,
    pub current: Option<RouterView>,
}

impl StatusState {
    /// The relays read, the one being read last.
    pub open spec fn all(self) -> Seq<RouterView> {
        match self.current {
            Some(c) => self.done.push(c),
            None => self.done,
        }
    }

    /// The state after `line`. An `r` line completes the relay being read
    /// and starts the next; an `s` line sets the flags and a `w` line the
    /// bandwidths of the relay being read; any other line is passed over.
    pub open spec fn step(self, line: Seq<char>) -> StatusState {
        if "r "@.is_prefix_of(line) {
            StatusState { done: self.all(), current: r_line(spec_words(line)) }
        } else if "s "@.is_prefix_of(line) {
            match self.current {
                Some(c) => StatusState {
                    current: Some(RouterView { flags: spec_words(line.skip(2)), ..c }),
                    ..self
                },
                None => self,
            }
        } else if "w "@.is_prefix_of(line) {
            match self.current {
                Some(c) => StatusState {
                    current: Some(w_line(c, spec_words(line.skip(2)))),
                    ..self
                },
                None => self,
            }
        } else {
            self
        }
    }

    /// The state after `lines`, taken in order.
    pub open spec fn after(lines: Seq<Seq<char>>) -> StatusState
        decreases lines.len(),
    {
        if lines.len() == 0 {
            StatusState { done: Seq::empty(), current: None }
        } else {
            Self::after(lines.drop_last()).step(lines.last())
        }
    }
}

/// The relays that the daemon's report `response` of the network statuses
/// describes, in order.
pub open spec fn spec_statuses(response: Seq<char>) -> Seq<RouterView> {
    StatusState::after(spec_lines(response)).all()
}

/// The views of the relays of `rs`.
pub open spec fn router_views(rs: Seq<Router>) -> Seq<RouterView> {
    Seq::new(rs.len(), |i: int| rs[i]@)
}

/// The strings made of the character sequences of `ws`.
pub fn strings_of(ws: &Vec<Vec<char>>) -> (r: Vec<String>)
    ensures
        r@.len() == ws@.len(),
        forall|i: int| 0 <= i < r@.len() ==> (#[trigger] r@[i])@ == ws@[i]@,
{
    let mut out: Vec<String> = Vec::new();
    let mut i: usize = 0;
    while i < ws.len()
        invariant
            0 <= i <= ws@.len(),
            out@.len() == i,
            forall|j: int| 0 <= j < i ==> (#[trigger] out@[j])@ == ws@[j]@,
        decreases ws@.len() - i,
    {
        out.push(string_of(&ws[i]));
        i += 1;
    }
    out
}

/// Sets the bandwidths of `router` from the words of a `w` line.
pub fn apply_w_line(router: &mut Router, ws: &Vec<Vec<char>>)
    ensures
        final(router)@ == w_line(old(router)@, views(ws@)),
{
    let ghost all = views(ws@);
    let ghost start = router@;
    let mut i: usize = 0;
    proof {
        assert(all.take(0) =~= Seq::<Seq<char>>::empty());
    }
    while i < ws.len()
        invariant
            0 <= i <= ws@.len(),
            all == views(ws@),
            router@ == w_line(start, all.take(i as int)),
        decreases ws@.len() - i,
    {
        let word = &ws[i];
        proof {
            assert(all.take(i + 1).drop_last() =~= all.take(i as int));
            assert(all.take(i + 1).last() == word@);
            assert(word@.skip(0) =~= word@);
        }
        let eq = find_char(word, 0, '=');
        if eq < word.len() {
            let key = slice_of(word, 0, eq);
            let value = string_of(&slice_of(word, eq + 1, word.len()));
            proof {
                assert(key@ =~= word@.take(eq as int));
                assert(value@ =~= word@.skip(eq + 1));
            }
            if let Some(v) = parse_u64(value.as_str()) {
                if crate::text::chars_are(&key, "Bandwidth") {
                    router.bandwidth = Some(v);
                } else if crate::text::chars_are(&key, "Measured") {
                    router.measured = Some(v);
                }
            }
        }
        i += 1;
    }
    proof {
        assert(all.take(ws@.len() as int) =~= all);
    }
}

/// The relays that the daemon's report `response` of the network statuses
/// describes, in order.
pub fn parse_network_statuses(response: &str) -> (r: Result<Vec<Router>, Error>)
    ensures
        r matches Ok(routers) && router_views(routers@) == spec_statuses(response@),
{
    let text = chars_of(response);
    let ls = lines(&text);
    let ghost all = spec_lines(response@);
    let mut routers: Vec<Router> = Vec::new();
    let mut current: Option<Router> = None;
    let mut i: usize = 0;
    proof {
        assert(all.take(0) =~= Seq::<Seq<char>>::empty());
        assert(router_views(routers@) =~= Seq::<RouterView>::empty());
    }
    while i < ls.len()
        invariant
            0 <= i <= ls@.len(),
            views(ls@) == all,
            router_views(routers@) == StatusState::after(all.take(i as int)).done,
            match current {
                Some(c) => StatusState::after(all.take(i as int)).current == Some(c@),
                None => StatusState::after(all.take(i as int)).current is None,
            },
        decreases ls@.len() - i,
    {
        let line = &ls[i];
        proof {
            assert(all.take(i + 1).drop_last() =~= all.take(i as int));
            assert(all.take(i + 1).last() == line@);
        }
        if has_prefix(line, "r ") {
            if let Some(router) = current {
                let ghost before = router_views(routers@);
                routers.push(router);
                proof {
                    assert(router_views(routers@) =~= before.push(router@));
                }
            }
            let ws = words(line);
            if ws.len() >= 8 {
                let nickname = string_of(&ws[1]);
                let fingerprint = decode_base64_fingerprint(string_of(&ws[2]).as_str());
                let address = match parse_address(string_of(&ws[6]).as_str()) {
                    Some(a) => a,
                    None => IpAddress::V4(0),
                };
                current = Some(Router::new(fingerprint, nickname, address));
            } else {
                current = None;
            }
        } else if has_prefix(line, "s ") {
            proof {
                reveal_strlit("s ");
                assert("s "@.len() == 2);
            }
            if let Some(mut router) = current {
                let rest = slice_of(line, 2, line.len());
                proof {
                    assert(rest@ =~= line@.skip(2));
                }
                let ws = words(&rest);
                router.flags = strings_of(&ws);
                proof {
                    assert(router@.flags =~= spec_words(line@.skip(2)));
                }
                current = Some(router);
            }
        } else if has_prefix(line, "w ") {
            proof {
                reveal_strlit("w ");
                assert("w "@.len() == 2);
            }
            if let Some(mut router) = current {
                let rest = slice_of(line, 2, line.len());
                proof {
                    assert(rest@ =~= line@.skip(2));
                }
                let ws = words(&rest);
                apply_w_line(&mut router, &ws);
                current = Some(router);
            }
        }
        i += 1;
    }
    proof {
        assert(all.take(ls@.len() as int) =~= all);
    }
    if let Some(router) = current {
        let ghost before = router_views(routers@);
        routers.push(router);
        proof {
            assert(router_views(routers@) =~= before.push(router@));
        }
    }
    Ok(routers)
}

/// The weights after one word of the line of bandwidth weights: a key, an
/// equals sign and a number set the weight of the key.
pub open spec fn weight_word(m: Map<Seq<char>, i64>, word: Seq<char>) -> Map<Seq<char>, i64> {
    let i = first_index(word, '=');
    if 0 <= i < word.len() {
        match spec_parse_i64(word.skip(i + 1)) {
            Some(v) => m.insert(word.take(i), v),
            None => m,
        }
    } else {
        m
    }
}

/// The weights after the words `ws`, taken in order.
pub open spec fn weight_words(ws: Seq<Seq<char>>) -> Map<Seq<char>, i64>
    decreases ws.len(),
{
    if ws.len() == 0 {
        Map::empty()
    } else {
        weight_word(weight_words(ws.drop_last()), ws.last())
    }
}

/// The first of `lines` that begins with `bandwidth-weights ` and a
/// space, if there is one.
pub open spec fn weights_line(lines: Seq<Seq<char>>) -> Option<Seq<char>>
    decreases lines.len(),
{
    if lines.len() == 0 {
        None
    } else if "bandwidth-weights "@.is_prefix_of(lines[0]) {
        Some(lines[0])
    } else {
        weights_line(lines.drop_first())
    }
}

/// The bandwidth weights that the consensus `content` holds: those of the
/// words after the first of its line of bandwidth weights; none where it
/// has no such line.
pub open spec fn spec_consensus_weights(content: Seq<char>) -> Map<Seq<char>, i64> {
    match weights_line(spec_lines(content)) {
        Some(line) => if spec_words(line).len() > 0 {
            weight_words(spec_words(line).skip(1))
        } else {
            Map::empty()
        },
        None => Map::empty(),
    }
}

/// The bandwidth weights that the words `ws` set, the first word aside.
pub fn read_weights(ws: &Vec<Vec<char>>) -> (r: StrMap<i64>)
    requires
        ws@.len() > 0,
    ensures
        r@ == weight_words(views(ws@).skip(1)),
{
    let ghost all = views(ws@).skip(1);
    let mut out: StrMap<i64> = StrMap::new();
    let mut i: usize = 1;
    proof {
        assert(all.take(0) =~= Seq::<Seq<char>>::empty());
    }
    while i < ws.len()
        invariant
            1 <= i <= ws@.len(),
            all == views(ws@).skip(1),
            out@ == weight_words(all.take(i - 1)),
        decreases ws@.len() - i,
    {
        let word = &ws[i];
        proof {
            assert(all.take(i as int).drop_last() =~= all.take(i - 1));
            assert(all.take(i as int).last() == word@);
            assert(word@.skip(0) =~= word@);
        }
        let eq = find_char(word, 0, '=');
        if eq < word.len() {
            let key = string_of(&slice_of(word, 0, eq));
            let value = string_of(&slice_of(word, eq + 1, word.len()));
            proof {
                assert(key@ =~= word@.take(eq as int));
                assert(value@ =~= word@.skip(eq + 1));
            }
            if let Some(v) = parse_i64(value.as_str()) {
                out.insert(key, v);
            }
        }
        i += 1;
    }
    proof {
        assert(all.take(ws@.len() - 1) =~= all);
    }
    out
}

/// The bandwidth weights that the consensus `content` holds. Fails with
/// `Consensus` where it holds none.
pub fn get_consensus_weights(content: &str) -> (r: Result<StrMap<i64>, Error>)
    ensures
        match r {
            Ok(weights) => weights@ == spec_consensus_weights(content@) && weights.spec_len() > 0,
            Err(e) => (e matches Error::Consensus(m) && m@
                == "no bandwidth-weights found in consensus"@) && forall|k: Seq<char>|
                !spec_consensus_weights(content@).contains_key(k),
        },
{
    let text = chars_of(content);
    let ls = lines(&text);
    let ghost all = spec_lines(content@);
    let mut weights: StrMap<i64> = StrMap::new();
    let mut i: usize = 0;
    proof {
        assert(all.skip(0) =~= all);
    }
    while i < ls.len()
        invariant_except_break
            weights@ == Map::<Seq<char>, i64>::empty(),
            weights_line(all) == weights_line(all.skip(i as int)),
        invariant
            0 <= i <= ls@.len(),
            views(ls@) == all,
            all == spec_lines(content@),
        ensures
            weights@ == spec_consensus_weights(content@),
        decreases ls@.len() - i,
    {
        let line = &ls[i];
        proof {
            assert(all.skip(i as int)[0] == line@);
            assert(all.skip(i as int).drop_first() =~= all.skip(i + 1));
        }
        if has_prefix(line, "bandwidth-weights ") {
            let ws = words(line);
            if ws.len() > 0 {
                weights = read_weights(&ws);
            }
            break ;
        }
        i += 1;
    }
    if weights.is_empty() {
        return Err(Error::Consensus(String::from_str("no bandwidth-weights found in consensus")));
    }
    Ok(weights)
}

} // verus!
