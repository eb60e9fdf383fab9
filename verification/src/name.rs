use vstd::prelude::*;

use crate::buffer::{splice, BytePacketBuffer};
use crate::errors::DnsError;

verus! {

/// The character a label byte decodes to: ASCII uppercase is folded to
/// lowercase, every other byte keeps its code point.
pub open spec fn byte_to_char(b: u8) -> char {
    if 65 <= b && b <= 90 {
        ((b + 32) as u8) as char
    } else {
        b as char
    }
}

/// The characters a run of label bytes decodes to.
pub open spec fn label_chars(bytes: Seq<u8>) -> Seq<char> {
    bytes.map_values(|b: u8| byte_to_char(b))
}

/// The bytes a label's characters encode to (each character's low byte).
pub open spec fn label_bytes(s: Seq<char>) -> Seq<u8> {
    s.map_values(|c: char| c as u8)
}

/// The index of the first dot of `s`, or `s.len()` if there is none.
pub open spec fn first_dot(s: Seq<char>) -> nat
    decreases s.len(),
{
    if s.len() == 0 {
        0
    } else if s[0] == '.' {
        0
    } else {
        (1 + first_dot(s.drop_first())) as nat
    }
}

pub proof fn lemma_first_dot(s: Seq<char>)
    ensures
        first_dot(s) <= s.len(),
        first_dot(s) < s.len() ==> s[first_dot(s) as int] == '.',
        forall|i: int| 0 <= i < first_dot(s) ==> s[i] != '.',
    decreases s.len(),
{
    if s.len() == 0 {
    } else if s[0] == '.' {
    } else {
        lemma_first_dot(s.drop_first());
        assert forall|i: int| 0 <= i < first_dot(s) implies s[i] != '.' by {
            if i > 0 {
                assert(s.drop_first()[i - 1] != '.');
            }
        }
    }
}

/// The index scanned to by walking off the dot-free prefix is the first dot.
pub proof fn lemma_first_dot_is(s: Seq<char>, d: int)
    requires
        0 <= d <= s.len(),
        forall|i: int| 0 <= i < d ==> s[i] != '.',
        d < s.len() ==> s[d] == '.',
    ensures
        first_dot(s) == d,
    decreases s.len(),
{
    if s.len() == 0 {
    } else if s[0] == '.' {
    } else {
        assert forall|i: int| 0 <= i < d - 1 implies s.drop_first()[i] != '.' by {
            assert(s[i + 1] != '.');
        }
        lemma_first_dot_is(s.drop_first(), d - 1);
    }
}

/// The wire form of a name: each dot-separated label as a length byte and
/// the label's bytes, closed by a zero length byte.  No compression is
/// produced on encode.
pub open spec fn name_wire(s: Seq<char>) -> Seq<u8>
    decreases s.len(),
{
    let d = first_dot(s) as int;
    if d >= s.len() {
        seq![s.len() as u8] + label_bytes(s) + seq![0u8]
    } else {
        seq![d as u8] + label_bytes(s.subrange(0, d)) + name_wire(
            s.subrange(d + 1, s.len() as int),
        )
    }
}

/// Whether some label of `s` is longer than 63 characters.
pub open spec fn has_long_label(s: Seq<char>) -> bool
    decreases s.len(),
{
    let d = first_dot(s) as int;
    if d >= s.len() {
        s.len() > 63
    } else {
        d > 63 || has_long_label(s.subrange(d + 1, s.len() as int))
    }
}

/// A name's wire form is two bytes longer than the name: one length byte
/// per label in place of the dot before it, plus the leading length byte
/// and the terminator.
pub proof fn lemma_name_wire_len(s: Seq<char>)
    ensures
        name_wire(s).len() == s.len() + 2,
    decreases s.len(),
{
    lemma_first_dot(s);
    let d = first_dot(s) as int;
    if d < s.len() {
        lemma_name_wire_len(s.subrange(d + 1, s.len() as int));
    }
}

/// The parse of a name at `pos`, with `jumps_done` pointer jumps already
/// taken.  Gives the name and the position the frame cursor ends at: past
/// the terminator when no jump happened, past the first pointer otherwise.
pub open spec fn parse_name_at(buf: Seq<u8>, pos: int, jumps_done: int) -> Result<
    (Seq<char>, int),
    DnsError,
>
    decreases 6 - jumps_done, 512 - pos,
{
    if jumps_done > 5 {
        Err(DnsError::CompressionLoop)
    } else if !(0 <= pos < 512 && buf.len() == 512) {
        Err(DnsError::Overflow)
    } else {
        let len = buf[pos];
        if len >= 0xC0 {
            if pos + 1 >= 512 {
                Err(DnsError::Overflow)
            } else {
                let offset = (len - 0xC0) * 256 + buf[pos + 1];
                match parse_name_at(buf, offset as int, jumps_done + 1) {
                    Ok((name, _)) => Ok((name, pos + 2)),
                    Err(e) => Err(e),
                }
            }
        } else if len == 0 {
            Ok((Seq::empty(), pos + 1))
        } else if pos + 1 + len > 512 {
            Err(DnsError::Overflow)
        } else {
            let label = label_chars(buf.subrange(pos + 1, pos + 1 + len));
            match parse_name_at(buf, pos + 1 + len, jumps_done) {
                Ok((rest, end)) => if rest.len() == 0 {
                    Ok((label, end))
                } else {
                    Ok((label + seq!['.'] + rest, end))
                },
                Err(e) => Err(e),
            }
        }
    }
}

/// Appends one character.  Relies on `String::push` of std, which appends
/// exactly the given character to the string.
#[verifier::external_body]
fn push_char(s: &mut String, c: char)
    ensures
        final(s)@ == old(s)@.push(c),
{
    s.push(c);
}

/// The executable form of `byte_to_char`.
fn lower_byte_char(b: u8) -> (c: char)
    ensures
        c == byte_to_char(b),
{
    if 65 <= b && b <= 90 {
        (b + 32) as char
    } else {
        b as char
    }
}


/// A character below 256 survives the trip through its byte.
pub proof fn lemma_char_byte_identity(c: char)
    requires
        (c as u32) < 256,
    ensures
        ((c as u8) as char) == c,
        !(65 <= (c as u32) && (c as u32) <= 90) ==> byte_to_char(c as u8) == c,
{
    let c2 = (c as u8) as char;
    assert(c2 as u32 == c as u32);
    vstd::utf8::char_u32_cast(c, c as u32);
    vstd::utf8::char_u32_cast(c2, c2 as u32);
}

impl BytePacketBuffer {
    /// Parse the name starting at the absolute position `pos`, after
    /// `jumps_done` pointer jumps.  The cursor does not move.
    fn read_name_from(&self, pos: usize, jumps_done: usize) -> (r: Result<
        (String, usize),
        DnsError,
    >)
        requires
            self.wf(),
            jumps_done <= 6,
        ensures
            match r {
                Ok((name, end)) => parse_name_at(self.buf@, pos as int, jumps_done as int) == Ok::<
                    (Seq<char>, int),
                    DnsError,
                >((name@, end as int)) && end <= 512,
                Err(e) => parse_name_at(self.buf@, pos as int, jumps_done as int) == Err::<
                    (Seq<char>, int),
                    DnsError,
                >(e),
            },
        decreases 6 - jumps_done, 512 - pos,
    {
        if jumps_done > 5 {
            return Err(DnsError::CompressionLoop);
        }
        if pos >= 512 {
            return Err(DnsError::Overflow);
        }
        let len = self.get(pos)?;
        if len >= 0xC0 {
            // A 2-byte pointer: the low 14 bits give the offset to resume at.
            if pos + 1 >= 512 {
                return Err(DnsError::Overflow);
            }
            let b2 = self.get(pos + 1)?;
            let offset = (len as usize - 0xC0) * 256 + (b2 as usize);
            if jumps_done == 5 {
                proof {
                    assert(parse_name_at(self.buf@, offset as int, 6) == Err::<
                        (Seq<char>, int),
                        DnsError,
                    >(DnsError::CompressionLoop));
                }
                return Err(DnsError::CompressionLoop);
            }
            if offset >= 512 {
                proof {
                    assert(parse_name_at(self.buf@, offset as int, jumps_done + 1) == Err::<
                        (Seq<char>, int),
                        DnsError,
                    >(DnsError::Overflow));
                }
                return Err(DnsError::Overflow);
            }
            match self.read_name_from(offset, jumps_done + 1) {
                Ok((name, _)) => Ok((name, pos + 2)),
                Err(e) => Err(e),
            }
        } else if len == 0 {
            Ok((String::new(), pos + 1))
        } else if len as usize > 512 - (pos + 1) {
            Err(DnsError::Overflow)
        } else {
            let mut label = String::new();
            let mut i: usize = 0;
            while i < len as usize
                invariant
                    self.wf(),
                    pos + 1 + len <= 512,
                    i <= len,
                    label@ == label_chars(self.buf@.subrange(pos + 1, pos + 1 + i)),
                decreases len - i,
            {
                let b = self.get(pos + 1 + i)?;
                push_char(&mut label, lower_byte_char(b));
                proof {
                    assert(label_chars(self.buf@.subrange(pos + 1, pos + 1 + i + 1))
                        =~= label_chars(self.buf@.subrange(pos + 1, pos + 1 + i)).push(
                        byte_to_char(b),
                    ));
                }
                i = i + 1;
            }
            match self.read_name_from(pos + 1 + len as usize, jumps_done) {
                Ok((rest, end)) => {
                    if rest.as_str().is_empty() {
                        Ok((label, end))
                    } else {
                        push_char(&mut label, '.');
                        label.append(rest.as_str());
                        proof {
                            let lbl = label_chars(self.buf@.subrange(pos + 1, pos + 1 + len));
                            assert(label@ =~= lbl + seq!['.'] + rest@);
                        }
                        Ok((label, end))
                    }
                },
                Err(e) => Err(e),
            }
        }
    }

    /// Read the domain name under the cursor, following compression
    /// pointers, and leave the cursor after the name: after its terminator
    /// when no pointer was followed, after the first pointer otherwise.
    /// At most five jumps are followed; a sixth fails with
    /// `CompressionLoop`.
    pub fn read_name(&mut self) -> (r: Result<String, DnsError>)
        requires
            old(self).wf(),
        ensures
            final(self).wf(),
            final(self).buf@ == old(self).buf@,
            match r {
                Ok(name) => parse_name_at(old(self).buf@, old(self).pos as int, 0) == Ok::<
                    (Seq<char>, int),
                    DnsError,
                >((name@, final(self).pos as int)),
                Err(e) => parse_name_at(old(self).buf@, old(self).pos as int, 0) == Err::<
                    (Seq<char>, int),
                    DnsError,
                >(e) && *final(self) == *old(self),
            },
    {
        let (name, end) = match self.read_name_from(self.pos, 0) {
            Ok(v) => v,
            Err(e) => {
                return Err(e);
            },
        };
        self.pos = end;
        Ok(name)
    }

    /// Write `name_wire(qname)` under the cursor: the dot-separated labels
    /// of `qname`, each as a length byte and its bytes, closed by a zero
    /// byte.  A label longer than 63 characters fails with `LabelTooLong`;
    /// a name whose wire form passes the capacity fails with `Overflow`.
    pub fn write_qname(&mut self, qname: &String) -> (r: Result<(), DnsError>)
        requires
            old(self).wf(),
        ensures
            final(self).wf(),
            match r {
                Ok(()) => {
                    &&& !has_long_label(qname@)
                    &&& old(self).pos + qname@.len() + 2 <= 512
                    &&& final(self).pos == old(self).pos + qname@.len() + 2
                    &&& final(self).buf@ == splice(
                        old(self).buf@,
                        old(self).pos as int,
                        name_wire(qname@),
                    )
                },
                Err(e) => {
                    &&& final(self).pos >= old(self).pos
                    &&& (e == DnsError::LabelTooLong || e == DnsError::Overflow)
                    &&& (e == DnsError::LabelTooLong ==> has_long_label(qname@))
                    &&& (e == DnsError::Overflow ==> old(self).pos + qname@.len() + 2 > 512)
                },
            },
    {
        proof {
            lemma_name_wire_len(qname@);
        }
        let r = self.write_qname_part(qname.as_str(), 0);
        proof {
            assert(qname@.subrange(0, qname@.len() as int) =~= qname@);
        }
        r
    }

    /// Write the labels of `s` from character `from` on, as `write_qname`
    /// does for a whole name.
    #[verifier::rlimit(60)]
    fn write_qname_part(&mut self, s: &str, from: usize) -> (r: Result<(), DnsError>)
        requires
            old(self).wf(),
            from <= s@.len(),
        ensures
            final(self).wf(),
            ({
                let part = s@.subrange(from as int, s@.len() as int);
                match r {
                    Ok(()) => {
                        &&& !has_long_label(part)
                        &&& old(self).pos + part.len() + 2 <= 512
                        &&& final(self).pos == old(self).pos + part.len() + 2
                        &&& final(self).buf@ == splice(
                            old(self).buf@,
                            old(self).pos as int,
                            name_wire(part),
                        )
                    },
                    Err(e) => {
                        &&& final(self).pos >= old(self).pos
                        &&& (e == DnsError::LabelTooLong || e == DnsError::Overflow)
                        &&& (e == DnsError::LabelTooLong ==> has_long_label(part))
                        &&& (e == DnsError::Overflow ==> old(self).pos + part.len() + 2 > 512)
                    },
                }
            }),
        decreases s@.len() - from,
    {
        let ghost part = s@.subrange(from as int, s@.len() as int);
        let len = s.unicode_len();
        let mut end: usize = from;
        while end < len && s.get_char(end) != '.'
            invariant
                from <= end <= len,
                len == s@.len(),
                forall|j: int| from <= j < end ==> s@[j] != ('.'),
            decreases len - end,
        {
            end = end + 1;
        }
        proof {
            assert forall|j: int| 0 <= j < end - from implies part[j] != ('.') by {
                assert(part[j] == s@[from + j]);
            }
            if end < len {
                assert(part[end - from] == s@[end as int]);
            }
            lemma_first_dot_is(part, end - from);
        }
        let lablen = end - from;
        if lablen > 63 {
            return Err(DnsError::LabelTooLong);
        }
        let ghost b0 = self.buf@;
        let ghost p0 = self.pos as int;
        proof {
            lemma_name_wire_len(part);
        }
        self.write_u8(lablen as u8)?;
        let ghost b1 = self.buf@;
        let mut i = from;
        while i < end
            invariant
                self.wf(),
                from <= i <= end <= len,
                len == s@.len(),
                p0 == old(self).pos,
                part == s@.subrange(from as int, s@.len() as int),
                self.pos == p0 + 1 + (i - from),
                b1.len() == 512,
                self.buf@ == splice(b1, p0 + 1, label_bytes(s@.subrange(from as int, i as int))),
                self.pos <= 512,
            decreases end - i,
        {
            let ghost bprev = self.buf@;
            let c = s.get_char(i);
            match self.write_u8(c as u8) {
                Ok(()) => {},
                Err(e) => {
                    proof {
                        lemma_name_wire_len(part);
                        assert(self.pos == 512);
                        assert(part.len() == len - from);
                    }
                    return Err(e);
                },
            }
            proof {
                crate::buffer::lemma_splice_splice(
                    b1,
                    p0 + 1,
                    label_bytes(s@.subrange(from as int, i as int)),
                    seq![c as u8],
                );
                assert(label_bytes(s@.subrange(from as int, i + 1)) =~= label_bytes(
                    s@.subrange(from as int, i as int),
                ) + seq![c as u8]);
            }
            i = i + 1;
        }
        let ghost lbl = label_bytes(s@.subrange(from as int, end as int));
        proof {
            crate::buffer::lemma_splice_splice(b0, p0, seq![lablen as u8], lbl);
        }
        if end == len {
            self.write_u8(0)?;
            proof {
                crate::buffer::lemma_splice_splice(b0, p0, seq![lablen as u8] + lbl, seq![0u8]);
                assert(part =~= s@.subrange(from as int, end as int));
                assert(name_wire(part) == seq![part.len() as u8] + label_bytes(part) + seq![0u8]);
                assert(seq![lablen as u8] + lbl + seq![0u8] =~= seq![part.len() as u8]
                    + label_bytes(part) + seq![0u8]);
            }
            Ok(())
        } else {
            let ghost bmid = self.buf@;
            let ghost rest = s@.subrange(end + 1, s@.len() as int);
            match self.write_qname_part(s, end + 1) {
                Ok(()) => {},
                Err(e) => {
                    proof {
                        lemma_name_wire_len(rest);
                        assert(part.subrange(end - from + 1, part.len() as int) =~= rest);
                    }
                    return Err(e);
                },
            }
            proof {
                lemma_name_wire_len(rest);
                crate::buffer::lemma_splice_splice(
                    b0,
                    p0,
                    seq![lablen as u8] + lbl,
                    name_wire(rest),
                );
                assert(part.subrange(end - from + 1, part.len() as int) =~= rest);
                assert(part.subrange(0, end - from) =~= s@.subrange(from as int, end as int));
                assert(name_wire(part) == seq![(end - from) as u8] + label_bytes(
                    part.subrange(0, end - from),
                ) + name_wire(rest));
                assert(seq![lablen as u8] + lbl + name_wire(rest) =~= name_wire(part));
            }
            Ok(())
        }
    }
}

/// Whether a name can be read back, byte for byte, from its own wire form:
/// nonempty labels of at most 63 characters, each character one lowercase
/// byte.
pub open spec fn encodable_name(s: Seq<char>) -> bool {
    &&& s.len() > 0
    &&& s[0] != '.'
    &&& s[s.len() - 1] != '.'
    &&& forall|i: int| 0 <= i < s.len() - 1 ==> !(#[trigger] s[i] == '.' && s[i + 1] == '.')
    &&& !has_long_label(s)
    &&& forall|i: int|
        0 <= i < s.len() ==> (s[i] as u32) < 256 && !(65 <= (s[i] as u32) && (s[i] as u32) <= 90)
}

/// Law: a name in encodable form parses back from its own wire bytes,
/// wherever they stand in the frame, with the cursor ending right after
/// them.  With `lemma_name_wire_len` this is the name codec round trip.
pub proof fn lemma_name_wire_parses(buf: Seq<u8>, pos: int, s: Seq<char>, jumps_done: int)
    requires
        buf.len() == 512,
        encodable_name(s),
        0 <= pos,
        0 <= jumps_done <= 5,
        pos + s.len() + 2 <= 512,
        buf.subrange(pos, pos + s.len() + 2) == name_wire(s),
    ensures
        parse_name_at(buf, pos, jumps_done) == Ok::<(Seq<char>, int), DnsError>(
            (s, pos + s.len() + 2),
        ),
    decreases s.len(),
{
    lemma_first_dot(s);
    lemma_name_wire_len(s);
    let d = first_dot(s) as int;
    let w = name_wire(s);
    assert(buf[pos] == w[0]);
    if d >= s.len() {
        // A single label followed by the terminator.
        assert(w == seq![s.len() as u8] + label_bytes(s) + seq![0u8]);
        assert(w[0] == s.len() as u8);
        assert(s.len() <= 63);
        assert(buf[pos] == s.len() as u8);
        let len = buf[pos];
        assert(0 < len < 0xC0);
        assert(buf.subrange(pos + 1, pos + 1 + len) =~= label_bytes(s)) by {
            assert forall|j: int| 0 <= j < s.len() implies buf.subrange(
                pos,
                pos + s.len() + 2,
            )[j + 1] == label_bytes(s)[j] by {
                assert(w[j + 1] == label_bytes(s)[j]);
            }
        }
        assert(label_chars(label_bytes(s)) =~= s) by {
            assert forall|j: int| 0 <= j < s.len() implies byte_to_char(s[j] as u8) == s[j] by {
                assert((s[j] as u32) < 256 && !(65 <= (s[j] as u32) && (s[j] as u32) <= 90));
                lemma_char_byte_identity(s[j]);
            }
        }
        assert(buf[pos + 1 + len] == w[s.len() as int + 1]);
        assert(buf[pos + 1 + len] == 0);
        assert(parse_name_at(buf, pos + 1 + len, jumps_done) == Ok::<(Seq<char>, int), DnsError>(
            (Seq::empty(), pos + 1 + len + 1),
        ));
    } else {
        // The label before the first dot, then the rest of the name.
        let label = s.subrange(0, d);
        let rest = s.subrange(d + 1, s.len() as int);
        assert(w == seq![d as u8] + label_bytes(label) + name_wire(rest));
        assert(0 < d <= 63) by {
            assert(s[0] != '.');
            assert(!has_long_label(s));
        }
        assert(buf[pos] == d as u8);
        let len = buf[pos];
        assert(0 < len < 0xC0);
        assert(buf.subrange(pos + 1, pos + 1 + d) =~= label_bytes(label)) by {
            assert forall|j: int| 0 <= j < d implies buf.subrange(pos, pos + s.len() + 2)[j + 1]
                == label_bytes(label)[j] by {
                assert(w[j + 1] == label_bytes(label)[j]);
            }
        }
        assert(label_chars(label_bytes(label)) =~= label) by {
            assert forall|j: int| 0 <= j < label.len() implies byte_to_char(label[j] as u8)
                == label[j] by {
                assert(label[j] == s[j]);
                lemma_char_byte_identity(label[j]);
            }
        }
        // The rest is itself encodable and its wire bytes follow the label.
        assert(encodable_name(rest)) by {
            assert(s[d] == '.');
            assert(d + 1 < s.len()) by {
                assert(s[s.len() - 1] != '.');
            }
            assert(rest[0] == s[d + 1]);
            assert(rest[0] != '.') by {
                assert(!(s[d] == '.' && s[d + 1] == '.'));
            }
            assert(rest[rest.len() - 1] == s[s.len() - 1]);
            assert forall|i: int| 0 <= i < rest.len() - 1 implies !(#[trigger] rest[i] == '.'
                && rest[i + 1] == '.') by {
                assert(rest[i] == s[d + 1 + i] && rest[i + 1] == s[d + 1 + i + 1]);
            }
            assert forall|i: int| 0 <= i < rest.len() implies (rest[i] as u32) < 256 && !(65 <= (
            rest[i] as u32) && (rest[i] as u32) <= 90) by {
                assert(rest[i] == s[d + 1 + i]);
            }
        }
        lemma_name_wire_len(rest);
        assert(buf.subrange(pos + 1 + d, pos + 1 + d + rest.len() + 2) =~= name_wire(rest)) by {
            assert forall|j: int| 0 <= j < rest.len() + 2 implies buf.subrange(
                pos,
                pos + s.len() + 2,
            )[1 + d + j] == name_wire(rest)[j] by {
                assert(w[1 + d + j] == name_wire(rest)[j]);
            }
        }
        lemma_name_wire_parses(buf, pos + 1 + d, rest, jumps_done);
        assert(rest.len() > 0);
        assert(label + seq!['.'] + rest =~= s);
    }
}

} // verus!
