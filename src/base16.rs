use vstd::prelude::*;
use vstd::string::StringSliceAdditionalSpecFns;

verus! {

/// Value of an upper-case hexadecimal digit, `None` for any other byte.
pub open spec fn hex_value(c: u8) -> Option<u8> {
    if 48 <= c <= 57 {
        Some((c - 48) as u8)
    } else if 65 <= c <= 70 {
        Some((c - 55) as u8)
    } else {
        None
    }
}

pub open spec fn is_hex(c: u8) -> bool {
    hex_value(c) is Some
}

/// The byte written by the two digits at `s[i]` and `s[i + 1]`.
pub open spec fn pair_value(s: Seq<u8>, i: int) -> u8 {
    (16 * hex_value(s[i])->0 + hex_value(s[i + 1])->0) as u8
}

/// Reads bytes written as pairs of upper-case hexadecimal digits, most
/// significant digit first.
pub struct Base16Reader<'a> {
    to_read: &'a [u8],
    index: usize,
}

impl<'a> Base16Reader<'a> {
    /// The text being read.
    pub closed spec fn text(&self) -> Seq<u8> {
        self.to_read@
    }

    /// Position of the next digit.
    pub closed spec fn pos(&self) -> int {
        self.index as int
    }

    pub open spec fn wf(&self) -> bool {
        0 <= self.pos() <= self.text().len()
    }

    /// Whether, among the next `n` digits, those that belong to a complete
    /// pair are all valid. A lone final digit is never read.
    pub open spec fn digits_ahead(&self, n: int) -> bool {
        forall|i: int|
            self.pos() <= i < self.pos() + n && self.pos() + 2 * ((i - self.pos()) / 2) + 2
                <= self.text().len() ==> is_hex(#[trigger] self.text()[i])
    }

    pub fn new(input: &'a str) -> (r: Self)
        ensures
            r.text() == input.spec_bytes(),
            r.pos() == 0,
            r.wf(),
    {
        Base16Reader { to_read: input.as_bytes(), index: 0 }
    }

    fn lookup_char(input: u8) -> (r: Option<u8>)
        ensures
            r == hex_value(input),
    {
        if 48 <= input && input <= 57 {
            Some(input - 48)
        } else if 65 <= input && input <= 70 {
            Some(input - 55)
        } else {
            None
        }
    }

    /// The next byte, or `None`, with nothing consumed, when fewer than two
    /// digits are left.
    pub fn read_u8(&mut self) -> (r: Option<u8>)
        requires
            old(self).wf(),
            old(self).digits_ahead(2),
        ensures
            final(self).wf(),
            final(self).text() == old(self).text(),
            old(self).pos() + 2 <= old(self).text().len() ==> r == Some(
                pair_value(old(self).text(), old(self).pos()),
            ) && final(self).pos() == old(self).pos() + 2,
            old(self).pos() + 2 > old(self).text().len() ==> r is None && final(self).pos()
                == old(self).pos(),
    {
        if self.to_read.len() - self.index >= 2 {
            let high = match Self::lookup_char(self.to_read[self.index]) {
                Some(d) => d,
                None => 0,
            };
            let low = match Self::lookup_char(self.to_read[self.index + 1]) {
                Some(d) => d,
                None => 0,
            };
            self.index += 2;
            Some(16 * high + low)
        } else {
            None
        }
    }

    /// The next two bytes as a big-endian number. When fewer than four digits
    /// are left the result is `None`, and a first byte that could be read is
    /// consumed all the same.
    pub fn read_u16(&mut self) -> (r: Option<u16>)
        requires
            old(self).wf(),
            old(self).digits_ahead(4),
        ensures
            final(self).wf(),
            final(self).text() == old(self).text(),
            old(self).pos() + 4 <= old(self).text().len() ==> r == Some(
                (pair_value(old(self).text(), old(self).pos()) * 256 + pair_value(
                    old(self).text(),
                    old(self).pos() + 2,
                )) as u16,
            ) && final(self).pos() == old(self).pos() + 4,
            old(self).pos() + 4 > old(self).text().len() ==> r is None && final(self).pos() == if old(
                self,
            ).pos() + 2 <= old(self).text().len() {
                old(self).pos() + 2
            } else {
                old(self).pos()
            },
    {
        let first = match self.read_u8() {
            Some(b) => b as u16,
            None => return None,
        };
        let second = match self.read_u8() {
            Some(b) => b as u16,
            None => return None,
        };
        Some(first * 256 + second)
    }

    /// Whether at least one more byte, two digits, is left.
    pub fn has_next(&self) -> (r: bool)
        requires
            self.wf(),
        ensures
            r == (self.pos() + 1 < self.text().len()),
    {
        self.to_read.len() - self.index > 1
    }
}

/// Whether every digit of `s` that belongs to a complete pair is valid.
pub open spec fn pairs_valid(s: Seq<u8>) -> bool {
    forall|i: int| 0 <= i < s.len() && 2 * (i / 2) + 2 <= s.len() ==> is_hex(#[trigger] s[i])
}

/// The bytes written by the complete digit pairs of `s`.
pub open spec fn line_bytes(s: Seq<u8>) -> Seq<u8> {
    Seq::new((s.len() / 2) as nat, |k: int| pair_value(s, 2 * k))
}

/// `n` pixels of the four-byte colour `color`.
pub open spec fn run_bytes(color: Seq<u8>, n: int) -> Seq<u8> {
    Seq::new((4 * n) as nat, |i: int| color[i % 4])
}

/// Palette entry `c` of a decoded line: four bytes after the two-byte count.
pub open spec fn palette_entry(b: Seq<u8>, c: int) -> Seq<u8> {
    b.subrange(2 + 4 * c, 6 + 4 * c)
}

pub open spec fn with_prefix(prefix: Seq<u8>, rest: Option<Seq<u8>>) -> Option<Seq<u8>> {
    match rest {
        Some(r) => Some(prefix + r),
        None => None,
    }
}

/// The pixels of the runs that start at byte `p` of a decoded line whose
/// palette has `n_colors` entries. A run is a length byte, or 255 followed by
/// a two-byte length, then a palette index. `None` where a run is cut short
/// or names a colour past the palette.
pub open spec fn decode_runs(b: Seq<u8>, n_colors: int, p: int) -> Option<Seq<u8>>
    decreases b.len() - p,
{
    if p >= b.len() || p < 0 {
        Some(seq![])
    } else {
        let long = b[p] == 255;
        let q = if long {
            p + 3
        } else {
            p + 1
        };
        let len = if long {
            b[p + 1] * 256 + b[p + 2]
        } else {
            b[p] as int
        };
        if q >= b.len() || b[q] >= n_colors {
            None
        } else {
            with_prefix(run_bytes(palette_entry(b, b[q] as int), len), decode_runs(b, n_colors, q + 1))
        }
    }
}

/// The RGBA bytes of one packed texture line: a two-byte colour count, that
/// many four-byte palette colours, then runs of palette colours, all written
/// in upper-case hexadecimal. `None` where a digit is invalid or the line is
/// cut short.
pub open spec fn decode_texture(s: Seq<u8>) -> Option<Seq<u8>> {
    let b = line_bytes(s);
    if !pairs_valid(s) || b.len() < 2 {
        None
    } else {
        let n = b[0] * 256 + b[1];
        if 2 + 4 * n > b.len() {
            None
        } else {
            decode_runs(b, n, 2 + 4 * n)
        }
    }
}

proof fn lemma_reader_ahead(r: Base16Reader, n: int)
    requires
        pairs_valid(r.text()),
        r.pos() % 2 == 0,
        0 <= r.pos(),
    ensures
        r.digits_ahead(n),
{
    let s = r.text();
    let p = r.pos();
    assert forall|i: int|
        p <= i < p + n && p + 2 * ((i - p) / 2) + 2 <= s.len() implies is_hex(#[trigger] s[i]) by {
        assert(p + 2 * ((i - p) / 2) == 2 * (i / 2));
    }
}

/// Reads the head of the run at the reader's position: its length and its
/// palette index. `None` where the line ends first.
fn read_run(reader: &mut Base16Reader, Ghost(b): Ghost<Seq<u8>>) -> (r: Option<(u16, u8)>)
    requires
        old(reader).wf(),
        pairs_valid(old(reader).text()),
        b == line_bytes(old(reader).text()),
        old(reader).pos() % 2 == 0,
        old(reader).pos() / 2 < b.len(),
    ensures
        final(reader).wf(),
        final(reader).text() == old(reader).text(),
        ({
            let p = old(reader).pos() / 2;
            let long = b[p] == 255;
            let q = if long {
                p + 3
            } else {
                p + 1
            };
            &&& r is None <==> q >= b.len()
            &&& r matches Some(h) ==> {
                &&& h.0 == (if long {
                    b[p + 1] * 256 + b[p + 2]
                } else {
                    b[p] as int
                })
                &&& h.1 == b[q]
                &&& final(reader).pos() == 2 * (q + 1)
            }
        }),
{
    let ghost p = reader.pos() / 2;
    proof {
        lemma_reader_ahead(*reader, 6);
    }
    let first = match reader.read_u8() {
        Some(v) => v,
        None => return None,
    };
    assert(first == b[p]);
    let run_length: u16 = if first == 255 {
        match reader.read_u16() {
            Some(v) => {
                assert(v == b[p + 1] * 256 + b[p + 2]);
                v
            },
            None => return None,
        }
    } else {
        first as u16
    };
    let run_color = match reader.read_u8() {
        Some(v) => v,
        None => return None,
    };
    Some((run_length, run_color))
}

/// Appends `len` pixels of palette colour `c`.
fn push_run(out: &mut Vec<u8>, palette: &Vec<u8>, c: usize, len: u16)
    requires
        4 * c + 4 <= palette.len(),
    ensures
        final(out)@ == old(out)@ + run_bytes(palette@.subrange(4 * c, 4 * c + 4), len as int),
{
    let ghost color = palette@.subrange(4 * c, 4 * c + 4);
    let ghost before = out@;
    let base = 4 * c;
    let mut j: u16 = 0;
    while j < len
        invariant
            j <= len,
            base == 4 * c,
            base + 4 <= palette.len(),
            color == palette@.subrange(4 * c, 4 * c + 4),
            out@ == before + run_bytes(color, j as int),
        decreases len - j,
    {
        out.push(palette[base]);
        out.push(palette[base + 1]);
        out.push(palette[base + 2]);
        out.push(palette[base + 3]);
        assert(out@ =~= before + run_bytes(color, j + 1));
        j += 1;
    }
}

/// Decodes one packed texture line into RGBA bytes, four per pixel.
pub fn decode_texture_line(line: &str) -> (r: Option<Vec<u8>>)
    ensures
        match r {
            Some(v) => decode_texture(line.spec_bytes()) == Some(v@),
            None => decode_texture(line.spec_bytes()) is None,
        },
{
    let text = line.as_bytes();
    let ghost s = line.spec_bytes();
    let ghost b = line_bytes(s);
    let len = text.len();
    let mut i: usize = 0;
    while i < len / 2
        invariant
            text@ == s,
            s == line.spec_bytes(),
            len == s.len(),
            i <= len / 2,
            forall|j: int| 0 <= j < 2 * i ==> is_hex(#[trigger] s[j]),
        decreases len / 2 - i,
    {
        if Base16Reader::lookup_char(text[2 * i]).is_none() || Base16Reader::lookup_char(
            text[2 * i + 1],
        ).is_none() {
            proof {
                assert(2 * ((2 * i + 1) / 2) + 2 <= s.len());
                assert(2 * ((2 * i) / 2) + 2 <= s.len());
                if !is_hex(s[2 * i as int]) {
                    assert(!pairs_valid(s));
                } else {
                    assert(!is_hex(s[2 * i + 1]));
                    assert(!pairs_valid(s));
                }
            }
            return None;
        }
        i += 1;
    }
    assert(pairs_valid(s)) by {
        assert forall|j: int| 0 <= j < s.len() && 2 * (j / 2) + 2 <= s.len() implies is_hex(#[trigger] s[j]) by {
            assert(j < 2 * i);
        }
    }
    let mut reader = Base16Reader::new(line);
    proof {
        lemma_reader_ahead(reader, 4);
    }
    let num_colors = match reader.read_u16() {
        Some(v) => v,
        None => return None,
    };
    assert(b[0] == pair_value(s, 0) && b[1] == pair_value(s, 2));
    let ghost n = num_colors as int;
    assert(n == b[0] * 256 + b[1]);
    let mut palette: Vec<u8> = Vec::new();
    let mut k: usize = 0;
    while k < 4 * (num_colors as usize)
        invariant
            pairs_valid(s),
            s == line.spec_bytes(),
            reader.wf(),
            reader.text() == s,
            b == line_bytes(s),
            n == num_colors,
            n == b[0] * 256 + b[1],
            b.len() >= 2,
            k <= 4 * n,
            reader.pos() == 4 + 2 * k,
            palette@ == b.subrange(2, 2 + k as int),
        decreases 4 * n - k,
    {
        proof {
            lemma_reader_ahead(reader, 2);
        }
        let ghost p = reader.pos();
        match reader.read_u8() {
            Some(v) => {
                assert(v == b[2 + k as int]);
                palette.push(v);
            },
            None => {
                assert(2 + 4 * n > b.len());
                return None;
            },
        }
        assert(palette@ =~= b.subrange(2, 2 + k + 1));
        k += 1;
    }
    let ghost start = 2 + 4 * n;
    let mut out: Vec<u8> = Vec::new();
    assert(decode_runs(b, n, start) == with_prefix(out@, decode_runs(b, n, start))) by {
        match decode_runs(b, n, start) {
            Some(r) => assert(out@ + r =~= r),
            None => {},
        }
    }
    while reader.has_next()
        invariant
            pairs_valid(s),
            s == line.spec_bytes(),
            reader.wf(),
            reader.text() == s,
            b == line_bytes(s),
            n == num_colors,
            n == b[0] * 256 + b[1],
            b.len() >= 2,
            palette@ == b.subrange(2, 2 + 4 * n),
            2 + 4 * n <= b.len(),
            start == 2 + 4 * n,
            reader.pos() % 2 == 0,
            start <= reader.pos() / 2 <= b.len(),
            decode_runs(b, n, start) == with_prefix(out@, decode_runs(b, n, reader.pos() / 2)),
        decreases s.len() - reader.pos(),
    {
        let ghost p = reader.pos() / 2;
        let (run_length, run_color) = match read_run(&mut reader, Ghost(b)) {
            Some(h) => h,
            None => {
                assert(decode_runs(b, n, p) is None);
                return None;
            },
        };
        let ghost q = reader.pos() / 2 - 1;
        if run_color as u16 >= num_colors {
            return None;
        }
        let ghost color = palette_entry(b, run_color as int);
        assert(palette@.subrange(4 * run_color, 4 * run_color + 4) =~= color);
        let ghost before = out@;
        push_run(&mut out, &palette, run_color as usize, run_length);
        proof {
            let rest = decode_runs(b, n, q + 1);
            assert(decode_runs(b, n, p) == with_prefix(run_bytes(color, run_length as int), rest));
            match rest {
                Some(r) => {
                    assert(before + (run_bytes(color, run_length as int) + r) =~= out@ + r);
                },
                None => {},
            }
        }
    }
    proof {
        assert(decode_runs(b, n, reader.pos() / 2) == Some(Seq::<u8>::empty()));
        assert(out@ + Seq::<u8>::empty() =~= out@);
    }
    Some(out)
}

} // verus!
