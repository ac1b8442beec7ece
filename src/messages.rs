//! Each message as a fixed, ordered list of wire fields, and its encoding and
//! decoding through that list.
use vstd::prelude::*;
use crate::protocol::{
    Dirent, Qid, Rattach, Rgetattr, Rlcreate, Rlopen, Rmkdir, Rread, Rreaddir, Rversion, Rwalk,
    Rwrite, Tattach, Tclunk, Tfsync, Tgetattr, Tlcreate, Tlopen, Tmkdir, Tread, Treaddir, Tremove,
    Trename, Trenameat, Tsetattr, Tunlinkat, Tversion, Twalk, Twrite,
};
use crate::wire::{
    decode_fields, encode_fields, enc_fields, fields_view, fields_wf, kinds_of, lemma_fields_round_trip,
    parse_fields, field_view, kind_of, Field, FieldKind, FieldV,
};

verus! {

/// A message that is sent as a fixed, ordered list of fields.
pub trait WireMessage: Sized {
    /// The message's fields, in wire order.
    spec fn fields(&self) -> Seq<FieldV>;

    /// The kinds of the message's fields, in wire order.
    spec fn schema() -> Seq<FieldKind>;

    /// Every message of the type has fields of the schema's kinds.
    proof fn lemma_schema(&self)
        ensures
            kinds_of(self.fields()) == Self::schema(),
    ;

    /// The schema.
    fn kinds() -> (r: Vec<FieldKind>)
        ensures
            r@ == Self::schema(),
    ;

    /// The message's fields.
    fn to_fields(&self) -> (r: Vec<Field>)
        ensures
            fields_view(r@) == self.fields(),
    ;

    /// The message with the given fields, when they are of the schema's kinds.
    fn from_fields(fs: Vec<Field>) -> (r: Option<Self>)
        ensures
            kinds_of(fields_view(fs@)) == Self::schema() ==> r.is_some(),
            r matches Some(m) ==> m.fields() == fields_view(fs@),
    ;
}

/// Encodes a message.
pub fn encode_message<M: WireMessage>(m: &M) -> (r: Vec<u8>)
    requires
        fields_wf(m.fields()),
    ensures
        r@ == enc_fields(m.fields()),
{
    let fs = m.to_fields();
    encode_fields(&fs)
}

/// Decodes a message from the start of `buf`: the message and the number of
/// bytes it took, or `None` when `buf` does not start with one (too short,
/// or a string that is not UTF-8).
pub fn decode_message<M: WireMessage>(buf: &[u8]) -> (r: Option<(M, usize)>)
    ensures
        match parse_fields(M::schema(), buf@) {
            Some((fs, n)) => r matches Some((m, p)) && m.fields() == fs && p == n,
            None => r.is_none(),
        },
{
    let kinds = M::kinds();
    match decode_fields(&kinds, buf) {
        Some((fs, n)) => {
            proof {
                if let Some((v, _)) = parse_fields(M::schema(), buf@) {
                    lemma_parse_kinds(M::schema(), buf@);
                }
            }
            match M::from_fields(fs) {
                Some(m) => Some((m, n)),
                None => None,
            }
        },
        None => None,
    }
}

/// What is parsed for a schema has the schema's kinds.
proof fn lemma_parse_kinds(ks: Seq<FieldKind>, s: Seq<u8>)
    ensures
        parse_fields(ks, s) matches Some((fs, _)) ==> kinds_of(fs) == ks,
    decreases ks.len(),
{
    if ks.len() > 0 {
        if let Some((f, n)) = crate::wire::parse_field(ks[0], s) {
            lemma_parse_field_kind(ks[0], s);
            lemma_parse_kinds(ks.drop_first(), s.skip(n as int));
            if let Some((fs, m)) = parse_fields(ks.drop_first(), s.skip(n as int)) {
                assert(kinds_of(seq![f] + fs) =~= seq![ks[0]] + ks.drop_first());
                assert(seq![ks[0]] + ks.drop_first() =~= ks);
            }
        }
    } else {
        if let Some((fs, _)) = parse_fields(ks, s) {
            assert(kinds_of(fs) =~= ks);
        }
    }
}

proof fn lemma_parse_field_kind(k: FieldKind, s: Seq<u8>)
    ensures
        crate::wire::parse_field(k, s) matches Some((f, _)) ==> crate::wire::kind_of(f) == k,
{
}

/// Decoding an encoded message, whatever follows it, gives back a message
/// with exactly the same field values, for every message type and every
/// message that the wire format can carry (empty strings, blobs and arrays
/// included).
pub proof fn lemma_message_round_trip<M: WireMessage>(m: M, rest: Seq<u8>)
    requires
        fields_wf(m.fields()),
    ensures
        parse_fields(M::schema(), enc_fields(m.fields()) + rest) == Some(
            (m.fields(), enc_fields(m.fields()).len()),
        ),
{
    m.lemma_schema();
    lemma_fields_round_trip(m.fields(), rest);
}

fn copy_bytes(v: &Vec<u8>) -> (r: Vec<u8>)
    ensures
        r@ == v@,
{
    vstd::slice::slice_to_vec(v.as_slice())
}

fn copy_qids(v: &Vec<Qid>) -> (r: Vec<Qid>)
    ensures
        r@ == v@,
{
    vstd::slice::slice_to_vec(v.as_slice())
}

fn copy_strings(v: &Vec<String>) -> (r: Vec<String>)
    ensures
        r@.map_values(|s: String| s@) == v@.map_values(|s: String| s@),
{
    let mut r: Vec<String> = Vec::new();
    let mut i: usize = 0;
    while i < v.len()
        invariant
            i <= v@.len(),
            r@.len() == i,
            forall|j: int| 0 <= j < i ==> r@[j]@ == v@[j]@,
        decreases v@.len() - i,
    {
        r.push(v[i].clone());
        i = i + 1;
    }
    assert(r@.map_values(|s: String| s@) =~= v@.map_values(|s: String| s@));
    r
}

impl WireMessage for Tversion {
    open spec fn fields(&self) -> Seq<FieldV> {
        seq![
            FieldV::U32(self.msize),
            FieldV::Str(self.version@),
        ]
    }

    open spec fn schema() -> Seq<FieldKind> {
        seq![FieldKind::U32, FieldKind::Str]
    }

    proof fn lemma_schema(&self) {
        assert(kinds_of(self.fields()) =~= Self::schema());
    }

    fn kinds() -> (r: Vec<FieldKind>) {
        let r = vec![FieldKind::U32, FieldKind::Str];
        assert(r@ =~= Self::schema());
        r
    }

    fn to_fields(&self) -> (r: Vec<Field>) {
        let r = vec![
            Field::U32(self.msize),
            Field::Str(self.version.clone()),
        ];
        assert(fields_view(r@) =~= self.fields());
        r
    }

    fn from_fields(fs: Vec<Field>) -> (r: Option<Self>) {
        let ghost fs0 = fs@;
        let ghost orig = fields_view(fs0);
        if fs.len() != 2 {
            proof {
                assert(kinds_of(orig).len() == orig.len());
            }
            return None;
        }
        let mut fs = fs;
        proof {
            assert(fs@ =~= fs0.take(2));
            assert(orig[1] == field_view(fs0[1]));
            if kinds_of(orig) == Self::schema() {
                assert(kinds_of(orig)[1] == kind_of(orig[1]));
            }
        }
        let x1 = match fs.pop() {
            Some(Field::Str(v)) => v,
            _ => {
                return None;
            },
        };
        proof {
            assert(fs@ =~= fs0.take(1));
            assert(orig[0] == field_view(fs0[0]));
            if kinds_of(orig) == Self::schema() {
                assert(kinds_of(orig)[0] == kind_of(orig[0]));
            }
        }
        let x0 = match fs.pop() {
            Some(Field::U32(v)) => v,
            _ => {
                return None;
            },
        };
        let m = Tversion { msize: x0, version: x1 };
        proof {
            assert(orig[0] == FieldV::U32(m.msize));
            assert(orig[1] == FieldV::Str(m.version@));
            assert(m.fields() =~= orig);
        }
        Some(m)
    }
}

impl WireMessage for Rversion {
    open spec fn fields(&self) -> Seq<FieldV> {
        seq![
            FieldV::U32(self.msize),
            FieldV::Str(self.version@),
        ]
    }

    open spec fn schema() -> Seq<FieldKind> {
        seq![FieldKind::U32, FieldKind::Str]
    }

    proof fn lemma_schema(&self) {
        assert(kinds_of(self.fields()) =~= Self::schema());
    }

    fn kinds() -> (r: Vec<FieldKind>) {
        let r = vec![FieldKind::U32, FieldKind::Str];
        assert(r@ =~= Self::schema());
        r
    }

    fn to_fields(&self) -> (r: Vec<Field>) {
        let r = vec![
            Field::U32(self.msize),
            Field::Str(self.version.clone()),
        ];
        assert(fields_view(r@) =~= self.fields());
        r
    }

    fn from_fields(fs: Vec<Field>) -> (r: Option<Self>) {
        let ghost fs0 = fs@;
        let ghost orig = fields_view(fs0);
        if fs.len() != 2 {
            proof {
                assert(kinds_of(orig).len() == orig.len());
            }
            return None;
        }
        let mut fs = fs;
        proof {
            assert(fs@ =~= fs0.take(2));
            assert(orig[1] == field_view(fs0[1]));
            if kinds_of(orig) == Self::schema() {
                assert(kinds_of(orig)[1] == kind_of(orig[1]));
            }
        }
        let x1 = match fs.pop() {
            Some(Field::Str(v)) => v,
            _ => {
                return None;
            },
        };
        proof {
            assert(fs@ =~= fs0.take(1));
            assert(orig[0] == field_view(fs0[0]));
            if kinds_of(orig) == Self::schema() {
                assert(kinds_of(orig)[0] == kind_of(orig[0]));
            }
        }
        let x0 = match fs.pop() {
            Some(Field::U32(v)) => v,
            _ => {
                return None;
            },
        };
        let m = Rversion { msize: x0, version: x1 };
        proof {
            assert(orig[0] == FieldV::U32(m.msize));
            assert(orig[1] == FieldV::Str(m.version@));
            assert(m.fields() =~= orig);
        }
        Some(m)
    }
}

impl WireMessage for Tattach {
    open spec fn fields(&self) -> Seq<FieldV> {
        seq![
            FieldV::U32(self.fid),
            FieldV::U32(self.afid),
            FieldV::Str(self.uname@),
            FieldV::Str(self.aname@),
            FieldV::U32(self.n_uname),
        ]
    }

    open spec fn schema() -> Seq<FieldKind> {
        seq![FieldKind::U32, FieldKind::U32, FieldKind::Str, FieldKind::Str, FieldKind::U32]
    }

    proof fn lemma_schema(&self) {
        assert(kinds_of(self.fields()) =~= Self::schema());
    }

    fn kinds() -> (r: Vec<FieldKind>) {
        let r = vec![FieldKind::U32, FieldKind::U32, FieldKind::Str, FieldKind::Str, FieldKind::U32];
        assert(r@ =~= Self::schema());
        r
    }

    fn to_fields(&self) -> (r: Vec<Field>) {
        let r = vec![
            Field::U32(self.fid),
            Field::U32(self.afid),
            Field::Str(self.uname.clone()),
            Field::Str(self.aname.clone()),
            Field::U32(self.n_uname),
        ];
        assert(fields_view(r@) =~= self.fields());
        r
    }

    fn from_fields(fs: Vec<Field>) -> (r: Option<Self>) {
        let ghost fs0 = fs@;
        let ghost orig = fields_view(fs0);
        if fs.len() != 5 {
            proof {
                assert(kinds_of(orig).len() == orig.len());
            }
            return None;
        }
        let mut fs = fs;
        proof {
            assert(fs@ =~= fs0.take(5));
            assert(orig[4] == field_view(fs0[4]));
            if kinds_of(orig) == Self::schema() {
                assert(kinds_of(orig)[4] == kind_of(orig[4]));
            }
        }
        let x4 = match fs.pop() {
            Some(Field::U32(v)) => v,
            _ => {
                return None;
            },
        };
        proof {
            assert(fs@ =~= fs0.take(4));
            assert(orig[3] == field_view(fs0[3]));
            if kinds_of(orig) == Self::schema() {
                assert(kinds_of(orig)[3] == kind_of(orig[3]));
            }
        }
        let x3 = match fs.pop() {
            Some(Field::Str(v)) => v,
            _ => {
                return None;
            },
        };
        proof {
            assert(fs@ =~= fs0.take(3));
            assert(orig[2] == field_view(fs0[2]));
            if kinds_of(orig) == Self::schema() {
                assert(kinds_of(orig)[2] == kind_of(orig[2]));
            }
        }
        let x2 = match fs.pop() {
            Some(Field::Str(v)) => v,
            _ => {
                return None;
            },
        };
        proof {
            assert(fs@ =~= fs0.take(2));
            assert(orig[1] == field_view(fs0[1]));
            if kinds_of(orig) == Self::schema() {
                assert(kinds_of(orig)[1] == kind_of(orig[1]));
            }
        }
        let x1 = match fs.pop() {
            Some(Field::U32(v)) => v,
            _ => {
                return None;
            },
        };
        proof {
            assert(fs@ =~= fs0.take(1));
            assert(orig[0] == field_view(fs0[0]));
            if kinds_of(orig) == Self::schema() {
                assert(kinds_of(orig)[0] == kind_of(orig[0]));
            }
        }
        let x0 = match fs.pop() {
            Some(Field::U32(v)) => v,
            _ => {
                return None;
            },
        };
        let m = Tattach { fid: x0, afid: x1, uname: x2, aname: x3, n_uname: x4 };
        proof {
            assert(orig[0] == FieldV::U32(m.fid));
            assert(orig[1] == FieldV::U32(m.afid));
            assert(orig[2] == FieldV::Str(m.uname@));
            assert(orig[3] == FieldV::Str(m.aname@));
            assert(orig[4] == FieldV::U32(m.n_uname));
            assert(m.fields() =~= orig);
        }
        Some(m)
    }
}

impl WireMessage for Rattach {
    open spec fn fields(&self) -> Seq<FieldV> {
        seq![
            FieldV::Qid(self.qid),
        ]
    }

    open spec fn schema() -> Seq<FieldKind> {
        seq![FieldKind::Qid]
    }

    proof fn lemma_schema(&self) {
        assert(kinds_of(self.fields()) =~= Self::schema());
    }

    fn kinds() -> (r: Vec<FieldKind>) {
        let r = vec![FieldKind::Qid];
        assert(r@ =~= Self::schema());
        r
    }

    fn to_fields(&self) -> (r: Vec<Field>) {
        let r = vec![
            Field::Qid(self.qid),
        ];
        assert(fields_view(r@) =~= self.fields());
        r
    }

    fn from_fields(fs: Vec<Field>) -> (r: Option<Self>) {
        let ghost fs0 = fs@;
        let ghost orig = fields_view(fs0);
        if fs.len() != 1 {
            proof {
                assert(kinds_of(orig).len() == orig.len());
            }
            return None;
        }
        let mut fs = fs;
        proof {
            assert(fs@ =~= fs0.take(1));
            assert(orig[0] == field_view(fs0[0]));
            if kinds_of(orig) == Self::schema() {
                assert(kinds_of(orig)[0] == kind_of(orig[0]));
            }
        }
        let x0 = match fs.pop() {
            Some(Field::Qid(v)) => v,
            _ => {
                return None;
            },
        };
        let m = Rattach { qid: x0 };
        proof {
            assert(orig[0] == FieldV::Qid(m.qid));
            assert(m.fields() =~= orig);
        }
        Some(m)
    }
}

impl WireMessage for Twalk {
    open spec fn fields(&self) -> Seq<FieldV> {
        seq![
            FieldV::U32(self.fid),
            FieldV::U32(self.newfid),
            FieldV::Strs(self.wnames@.map_values(|s: String| s@)),
        ]
    }

    open spec fn schema() -> Seq<FieldKind> {
        seq![FieldKind::U32, FieldKind::U32, FieldKind::Strs]
    }

    proof fn lemma_schema(&self) {
        assert(kinds_of(self.fields()) =~= Self::schema());
    }

    fn kinds() -> (r: Vec<FieldKind>) {
        let r = vec![FieldKind::U32, FieldKind::U32, FieldKind::Strs];
        assert(r@ =~= Self::schema());
        r
    }

    fn to_fields(&self) -> (r: Vec<Field>) {
        let r = vec![
            Field::U32(self.fid),
            Field::U32(self.newfid),
            Field::Strs(copy_strings(&self.wnames)),
        ];
        assert(fields_view(r@) =~= self.fields());
        r
    }

    fn from_fields(fs: Vec<Field>) -> (r: Option<Self>) {
        let ghost fs0 = fs@;
        let ghost orig = fields_view(fs0);
        if fs.len() != 3 {
            proof {
                assert(kinds_of(orig).len() == orig.len());
            }
            return None;
        }
        let mut fs = fs;
        proof {
            assert(fs@ =~= fs0.take(3));
            assert(orig[2] == field_view(fs0[2]));
            if kinds_of(orig) == Self::schema() {
                assert(kinds_of(orig)[2] == kind_of(orig[2]));
            }
        }
        let x2 = match fs.pop() {
            Some(Field::Strs(v)) => v,
            _ => {
                return None;
            },
        };
        proof {
            assert(fs@ =~= fs0.take(2));
            assert(orig[1] == field_view(fs0[1]));
            if kinds_of(orig) == Self::schema() {
                assert(kinds_of(orig)[1] == kind_of(orig[1]));
            }
        }
        let x1 = match fs.pop() {
            Some(Field::U32(v)) => v,
            _ => {
                return None;
            },
        };
        proof {
            assert(fs@ =~= fs0.take(1));
            assert(orig[0] == field_view(fs0[0]));
            if kinds_of(orig) == Self::schema() {
                assert(kinds_of(orig)[0] == kind_of(orig[0]));
            }
        }
        let x0 = match fs.pop() {
            Some(Field::U32(v)) => v,
            _ => {
                return None;
            },
        };
        let m = Twalk { fid: x0, newfid: x1, wnames: x2 };
        proof {
            assert(orig[0] == FieldV::U32(m.fid));
            assert(orig[1] == FieldV::U32(m.newfid));
            assert(orig[2] == FieldV::Strs(m.wnames@.map_values(|s: String| s@)));
            assert(m.fields() =~= orig);
        }
        Some(m)
    }
}

impl WireMessage for Rwalk {
    open spec fn fields(&self) -> Seq<FieldV> {
        seq![
            FieldV::Qids(self.wqids@),
        ]
    }

    open spec fn schema() -> Seq<FieldKind> {
        seq![FieldKind::Qids]
    }

    proof fn lemma_schema(&self) {
        assert(kinds_of(self.fields()) =~= Self::schema());
    }

    fn kinds() -> (r: Vec<FieldKind>) {
        let r = vec![FieldKind::Qids];
        assert(r@ =~= Self::schema());
        r
    }

    fn to_fields(&self) -> (r: Vec<Field>) {
        let r = vec![
            Field::Qids(copy_qids(&self.wqids)),
        ];
        assert(fields_view(r@) =~= self.fields());
        r
    }

    fn from_fields(fs: Vec<Field>) -> (r: Option<Self>) {
        let ghost fs0 = fs@;
        let ghost orig = fields_view(fs0);
        if fs.len() != 1 {
            proof {
                assert(kinds_of(orig).len() == orig.len());
            }
            return None;
        }
        let mut fs = fs;
        proof {
            assert(fs@ =~= fs0.take(1));
            assert(orig[0] == field_view(fs0[0]));
            if kinds_of(orig) == Self::schema() {
                assert(kinds_of(orig)[0] == kind_of(orig[0]));
            }
        }
        let x0 = match fs.pop() {
            Some(Field::Qids(v)) => v,
            _ => {
                return None;
            },
        };
        let m = Rwalk { wqids: x0 };
        proof {
            assert(orig[0] == FieldV::Qids(m.wqids@));
            assert(m.fields() =~= orig);
        }
        Some(m)
    }
}

impl WireMessage for Tlopen {
    open spec fn fields(&self) -> Seq<FieldV> {
        seq![
            FieldV::U32(self.fid),
            FieldV::U32(self.flags),
        ]
    }

    open spec fn schema() -> Seq<FieldKind> {
        seq![FieldKind::U32, FieldKind::U32]
    }

    proof fn lemma_schema(&self) {
        assert(kinds_of(self.fields()) =~= Self::schema());
    }

    fn kinds() -> (r: Vec<FieldKind>) {
        let r = vec![FieldKind::U32, FieldKind::U32];
        assert(r@ =~= Self::schema());
        r
    }

    fn to_fields(&self) -> (r: Vec<Field>) {
        let r = vec![
            Field::U32(self.fid),
            Field::U32(self.flags),
        ];
        assert(fields_view(r@) =~= self.fields());
        r
    }

    fn from_fields(fs: Vec<Field>) -> (r: Option<Self>) {
        let ghost fs0 = fs@;
        let ghost orig = fields_view(fs0);
        if fs.len() != 2 {
            proof {
                assert(kinds_of(orig).len() == orig.len());
            }
            return None;
        }
        let mut fs = fs;
        proof {
            assert(fs@ =~= fs0.take(2));
            assert(orig[1] == field_view(fs0[1]));
            if kinds_of(orig) == Self::schema() {
                assert(kinds_of(orig)[1] == kind_of(orig[1]));
            }
        }
        let x1 = match fs.pop() {
            Some(Field::U32(v)) => v,
            _ => {
                return None;
            },
        };
        proof {
            assert(fs@ =~= fs0.take(1));
            assert(orig[0] == field_view(fs0[0]));
            if kinds_of(orig) == Self::schema() {
                assert(kinds_of(orig)[0] == kind_of(orig[0]));
            }
        }
        let x0 = match fs.pop() {
            Some(Field::U32(v)) => v,
            _ => {
                return None;
            },
        };
        let m = Tlopen { fid: x0, flags: x1 };
        proof {
            assert(orig[0] == FieldV::U32(m.fid));
            assert(orig[1] == FieldV::U32(m.flags));
            assert(m.fields() =~= orig);
        }
        Some(m)
    }
}

impl WireMessage for Rlopen {
    open spec fn fields(&self) -> Seq<FieldV> {
        seq![
            FieldV::Qid(self.qid),
            FieldV::U32(self.iounit),
        ]
    }

    open spec fn schema() -> Seq<FieldKind> {
        seq![FieldKind::Qid, FieldKind::U32]
    }

    proof fn lemma_schema(&self) {
        assert(kinds_of(self.fields()) =~= Self::schema());
    }

    fn kinds() -> (r: Vec<FieldKind>) {
        let r = vec![FieldKind::Qid, FieldKind::U32];
        assert(r@ =~= Self::schema());
        r
    }

    fn to_fields(&self) -> (r: Vec<Field>) {
        let r = vec![
            Field::Qid(self.qid),
            Field::U32(self.iounit),
        ];
        assert(fields_view(r@) =~= self.fields());
        r
    }

    fn from_fields(fs: Vec<Field>) -> (r: Option<Self>) {
        let ghost fs0 = fs@;
        let ghost orig = fields_view(fs0);
        if fs.len() != 2 {
            proof {
                assert(kinds_of(orig).len() == orig.len());
            }
            return None;
        }
        let mut fs = fs;
        proof {
            assert(fs@ =~= fs0.take(2));
            assert(orig[1] == field_view(fs0[1]));
            if kinds_of(orig) == Self::schema() {
                assert(kinds_of(orig)[1] == kind_of(orig[1]));
            }
        }
        let x1 = match fs.pop() {
            Some(Field::U32(v)) => v,
            _ => {
                return None;
            },
        };
        proof {
            assert(fs@ =~= fs0.take(1));
            assert(orig[0] == field_view(fs0[0]));
            if kinds_of(orig) == Self::schema() {
                assert(kinds_of(orig)[0] == kind_of(orig[0]));
            }
        }
        let x0 = match fs.pop() {
            Some(Field::Qid(v)) => v,
            _ => {
                return None;
            },
        };
        let m = Rlopen { qid: x0, iounit: x1 };
        proof {
            assert(orig[0] == FieldV::Qid(m.qid));
            assert(orig[1] == FieldV::U32(m.iounit));
            assert(m.fields() =~= orig);
        }
        Some(m)
    }
}

impl WireMessage for Tlcreate {
    open spec fn fields(&self) -> Seq<FieldV> {
        seq![
            FieldV::U32(self.fid),
            FieldV::Str(self.name@),
            FieldV::U32(self.flags),
            FieldV::U32(self.mode),
            FieldV::U32(self.gid),
        ]
    }

    open spec fn schema() -> Seq<FieldKind> {
        seq![FieldKind::U32, FieldKind::Str, FieldKind::U32, FieldKind::U32, FieldKind::U32]
    }

    proof fn lemma_schema(&self) {
        assert(kinds_of(self.fields()) =~= Self::schema());
    }

    fn kinds() -> (r: Vec<FieldKind>) {
        let r = vec![FieldKind::U32, FieldKind::Str, FieldKind::U32, FieldKind::U32, FieldKind::U32];
        assert(r@ =~= Self::schema());
        r
    }

    fn to_fields(&self) -> (r: Vec<Field>) {
        let r = vec![
            Field::U32(self.fid),
            Field::Str(self.name.clone()),
            Field::U32(self.flags),
            Field::U32(self.mode),
            Field::U32(self.gid),
        ];
        assert(fields_view(r@) =~= self.fields());
        r
    }

    fn from_fields(fs: Vec<Field>) -> (r: Option<Self>) {
        let ghost fs0 = fs@;
        let ghost orig = fields_view(fs0);
        if fs.len() != 5 {
            proof {
                assert(kinds_of(orig).len() == orig.len());
            }
            return None;
        }
        let mut fs = fs;
        proof {
            assert(fs@ =~= fs0.take(5));
            assert(orig[4] == field_view(fs0[4]));
            if kinds_of(orig) == Self::schema() {
                assert(kinds_of(orig)[4] == kind_of(orig[4]));
            }
        }
        let x4 = match fs.pop() {
            Some(Field::U32(v)) => v,
            _ => {
                return None;
            },
        };
        proof {
            assert(fs@ =~= fs0.take(4));
            assert(orig[3] == field_view(fs0[3]));
            if kinds_of(orig) == Self::schema() {
                assert(kinds_of(orig)[3] == kind_of(orig[3]));
            }
        }
        let x3 = match fs.pop() {
            Some(Field::U32(v)) => v,
            _ => {
                return None;
            },
        };
        proof {
            assert(fs@ =~= fs0.take(3));
            assert(orig[2] == field_view(fs0[2]));
            if kinds_of(orig) == Self::schema() {
                assert(kinds_of(orig)[2] == kind_of(orig[2]));
            }
        }
        let x2 = match fs.pop() {
            Some(Field::U32(v)) => v,
            _ => {
                return None;
            },
        };
        proof {
            assert(fs@ =~= fs0.take(2));
            assert(orig[1] == field_view(fs0[1]));
            if kinds_of(orig) == Self::schema() {
                assert(kinds_of(orig)[1] == kind_of(orig[1]));
            }
        }
        let x1 = match fs.pop() {
            Some(Field::Str(v)) => v,
            _ => {
                return None;
            },
        };
        proof {
            assert(fs@ =~= fs0.take(1));
            assert(orig[0] == field_view(fs0[0]));
            if kinds_of(orig) == Self::schema() {
                assert(kinds_of(orig)[0] == kind_of(orig[0]));
            }
        }
        let x0 = match fs.pop() {
            Some(Field::U32(v)) => v,
            _ => {
                return None;
            },
        };
        let m = Tlcreate { fid: x0, name: x1, flags: x2, mode: x3, gid: x4 };
        proof {
            assert(orig[0] == FieldV::U32(m.fid));
            assert(orig[1] == FieldV::Str(m.name@));
            assert(orig[2] == FieldV::U32(m.flags));
            assert(orig[3] == FieldV::U32(m.mode));
            assert(orig[4] == FieldV::U32(m.gid));
            assert(m.fields() =~= orig);
        }
        Some(m)
    }
}

impl WireMessage for Rlcreate {
    open spec fn fields(&self) -> Seq<FieldV> {
        seq![
            FieldV::Qid(self.qid),
            FieldV::U32(self.iounit),
        ]
    }

    open spec fn schema() -> Seq<FieldKind> {
        seq![FieldKind::Qid, FieldKind::U32]
    }

    proof fn lemma_schema(&self) {
        assert(kinds_of(self.fields()) =~= Self::schema());
    }

    fn kinds() -> (r: Vec<FieldKind>) {
        let r = vec![FieldKind::Qid, FieldKind::U32];
        assert(r@ =~= Self::schema());
        r
    }

    fn to_fields(&self) -> (r: Vec<Field>) {
        let r = vec![
            Field::Qid(self.qid),
            Field::U32(self.iounit),
        ];
        assert(fields_view(r@) =~= self.fields());
        r
    }

    fn from_fields(fs: Vec<Field>) -> (r: Option<Self>) {
        let ghost fs0 = fs@;
        let ghost orig = fields_view(fs0);
        if fs.len() != 2 {
            proof {
                assert(kinds_of(orig).len() == orig.len());
            }
            return None;
        }
        let mut fs = fs;
        proof {
            assert(fs@ =~= fs0.take(2));
            assert(orig[1] == field_view(fs0[1]));
            if kinds_of(orig) == Self::schema() {
                assert(kinds_of(orig)[1] == kind_of(orig[1]));
            }
        }
        let x1 = match fs.pop() {
            Some(Field::U32(v)) => v,
            _ => {
                return None;
            },
        };
        proof {
            assert(fs@ =~= fs0.take(1));
            assert(orig[0] == field_view(fs0[0]));
            if kinds_of(orig) == Self::schema() {
                assert(kinds_of(orig)[0] == kind_of(orig[0]));
            }
        }
        let x0 = match fs.pop() {
            Some(Field::Qid(v)) => v,
            _ => {
                return None;
            },
        };
        let m = Rlcreate { qid: x0, iounit: x1 };
        proof {
            assert(orig[0] == FieldV::Qid(m.qid));
            assert(orig[1] == FieldV::U32(m.iounit));
            assert(m.fields() =~= orig);
        }
        Some(m)
    }
}

impl WireMessage for Tread {
    open spec fn fields(&self) -> Seq<FieldV> {
        seq![
            FieldV::U32(self.fid),
            FieldV::U64(self.offset),
            FieldV::U32(self.count),
        ]
    }

    open spec fn schema() -> Seq<FieldKind> {
        seq![FieldKind::U32, FieldKind::U64, FieldKind::U32]
    }

    proof fn lemma_schema(&self) {
        assert(kinds_of(self.fields()) =~= Self::schema());
    }

    fn kinds() -> (r: Vec<FieldKind>) {
        let r = vec![FieldKind::U32, FieldKind::U64, FieldKind::U32];
        assert(r@ =~= Self::schema());
        r
    }

    fn to_fields(&self) -> (r: Vec<Field>) {
        let r = vec![
            Field::U32(self.fid),
            Field::U64(self.offset),
            Field::U32(self.count),
        ];
        assert(fields_view(r@) =~= self.fields());
        r
    }

    fn from_fields(fs: Vec<Field>) -> (r: Option<Self>) {
        let ghost fs0 = fs@;
        let ghost orig = fields_view(fs0);
        if fs.len() != 3 {
            proof {
                assert(kinds_of(orig).len() == orig.len());
            }
            return None;
        }
        let mut fs = fs;
        proof {
            assert(fs@ =~= fs0.take(3));
            assert(orig[2] == field_view(fs0[2]));
            if kinds_of(orig) == Self::schema() {
                assert(kinds_of(orig)[2] == kind_of(orig[2]));
            }
        }
        let x2 = match fs.pop() {
            Some(Field::U32(v)) => v,
            _ => {
                return None;
            },
        };
        proof {
            assert(fs@ =~= fs0.take(2));
            assert(orig[1] == field_view(fs0[1]));
            if kinds_of(orig) == Self::schema() {
                assert(kinds_of(orig)[1] == kind_of(orig[1]));
            }
        }
        let x1 = match fs.pop() {
            Some(Field::U64(v)) => v,
            _ => {
                return None;
            },
        };
        proof {
            assert(fs@ =~= fs0.take(1));
            assert(orig[0] == field_view(fs0[0]));
            if kinds_of(orig) == Self::schema() {
                assert(kinds_of(orig)[0] == kind_of(orig[0]));
            }
        }
        let x0 = match fs.pop() {
            Some(Field::U32(v)) => v,
            _ => {
                return None;
            },
        };
        let m = Tread { fid: x0, offset: x1, count: x2 };
        proof {
            assert(orig[0] == FieldV::U32(m.fid));
            assert(orig[1] == FieldV::U64(m.offset));
            assert(orig[2] == FieldV::U32(m.count));
            assert(m.fields() =~= orig);
        }
        Some(m)
    }
}

impl WireMessage for Rread {
    open spec fn fields(&self) -> Seq<FieldV> {
        seq![
            FieldV::Data(self.data@),
        ]
    }

    open spec fn schema() -> Seq<FieldKind> {
        seq![FieldKind::Data]
    }

    proof fn lemma_schema(&self) {
        assert(kinds_of(self.fields()) =~= Self::schema());
    }

    fn kinds() -> (r: Vec<FieldKind>) {
        let r = vec![FieldKind::Data];
        assert(r@ =~= Self::schema());
        r
    }

    fn to_fields(&self) -> (r: Vec<Field>) {
        let r = vec![
            Field::Data(copy_bytes(&self.data)),
        ];
        assert(fields_view(r@) =~= self.fields());
        r
    }

    fn from_fields(fs: Vec<Field>) -> (r: Option<Self>) {
        let ghost fs0 = fs@;
        let ghost orig = fields_view(fs0);
        if fs.len() != 1 {
            proof {
                assert(kinds_of(orig).len() == orig.len());
            }
            return None;
        }
        let mut fs = fs;
        proof {
            assert(fs@ =~= fs0.take(1));
            assert(orig[0] == field_view(fs0[0]));
            if kinds_of(orig) == Self::schema() {
                assert(kinds_of(orig)[0] == kind_of(orig[0]));
            }
        }
        let x0 = match fs.pop() {
            Some(Field::Data(v)) => v,
            _ => {
                return None;
            },
        };
        let m = Rread { data: x0 };
        proof {
            assert(orig[0] == FieldV::Data(m.data@));
            assert(m.fields() =~= orig);
        }
        Some(m)
    }
}

impl WireMessage for Twrite {
    open spec fn fields(&self) -> Seq<FieldV> {
        seq![
            FieldV::U32(self.fid),
            FieldV::U64(self.offset),
            FieldV::Data(self.data@),
        ]
    }

    open spec fn schema() -> Seq<FieldKind> {
        seq![FieldKind::U32, FieldKind::U64, FieldKind::Data]
    }

    proof fn lemma_schema(&self) {
        assert(kinds_of(self.fields()) =~= Self::schema());
    }

    fn kinds() -> (r: Vec<FieldKind>) {
        let r = vec![FieldKind::U32, FieldKind::U64, FieldKind::Data];
        assert(r@ =~= Self::schema());
        r
    }

    fn to_fields(&self) -> (r: Vec<Field>) {
        let r = vec![
            Field::U32(self.fid),
            Field::U64(self.offset),
            Field::Data(copy_bytes(&self.data)),
        ];
        assert(fields_view(r@) =~= self.fields());
        r
    }

    fn from_fields(fs: Vec<Field>) -> (r: Option<Self>) {
        let ghost fs0 = fs@;
        let ghost orig = fields_view(fs0);
        if fs.len() != 3 {
            proof {
                assert(kinds_of(orig).len() == orig.len());
            }
            return None;
        }
        let mut fs = fs;
        proof {
            assert(fs@ =~= fs0.take(3));
            assert(orig[2] == field_view(fs0[2]));
            if kinds_of(orig) == Self::schema() {
                assert(kinds_of(orig)[2] == kind_of(orig[2]));
            }
        }
        let x2 = match fs.pop() {
            Some(Field::Data(v)) => v,
            _ => {
                return None;
            },
        };
        proof {
            assert(fs@ =~= fs0.take(2));
            assert(orig[1] == field_view(fs0[1]));
            if kinds_of(orig) == Self::schema() {
                assert(kinds_of(orig)[1] == kind_of(orig[1]));
            }
        }
        let x1 = match fs.pop() {
            Some(Field::U64(v)) => v,
            _ => {
                return None;
            },
        };
        proof {
            assert(fs@ =~= fs0.take(1));
            assert(orig[0] == field_view(fs0[0]));
            if kinds_of(orig) == Self::schema() {
                assert(kinds_of(orig)[0] == kind_of(orig[0]));
            }
        }
        let x0 = match fs.pop() {
            Some(Field::U32(v)) => v,
            _ => {
                return None;
            },
        };
        let m = Twrite { fid: x0, offset: x1, data: x2 };
        proof {
            assert(orig[0] == FieldV::U32(m.fid));
            assert(orig[1] == FieldV::U64(m.offset));
            assert(orig[2] == FieldV::Data(m.data@));
            assert(m.fields() =~= orig);
        }
        Some(m)
    }
}

impl WireMessage for Rwrite {
    open spec fn fields(&self) -> Seq<FieldV> {
        seq![
            FieldV::U32(self.count),
        ]
    }

    open spec fn schema() -> Seq<FieldKind> {
        seq![FieldKind::U32]
    }

    proof fn lemma_schema(&self) {
        assert(kinds_of(self.fields()) =~= Self::schema());
    }

    fn kinds() -> (r: Vec<FieldKind>) {
        let r = vec![FieldKind::U32];
        assert(r@ =~= Self::schema());
        r
    }

    fn to_fields(&self) -> (r: Vec<Field>) {
        let r = vec![
            Field::U32(self.count),
        ];
        assert(fields_view(r@) =~= self.fields());
        r
    }

    fn from_fields(fs: Vec<Field>) -> (r: Option<Self>) {
        let ghost fs0 = fs@;
        let ghost orig = fields_view(fs0);
        if fs.len() != 1 {
            proof {
                assert(kinds_of(orig).len() == orig.len());
            }
            return None;
        }
        let mut fs = fs;
        proof {
            assert(fs@ =~= fs0.take(1));
            assert(orig[0] == field_view(fs0[0]));
            if kinds_of(orig) == Self::schema() {
                assert(kinds_of(orig)[0] == kind_of(orig[0]));
            }
        }
        let x0 = match fs.pop() {
            Some(Field::U32(v)) => v,
            _ => {
                return None;
            },
        };
        let m = Rwrite { count: x0 };
        proof {
            assert(orig[0] == FieldV::U32(m.count));
            assert(m.fields() =~= orig);
        }
        Some(m)
    }
}

impl WireMessage for Tfsync {
    open spec fn fields(&self) -> Seq<FieldV> {
        seq![
            FieldV::U32(self.fid),
            FieldV::U32(self.datasync),
        ]
    }

    open spec fn schema() -> Seq<FieldKind> {
        seq![FieldKind::U32, FieldKind::U32]
    }

    proof fn lemma_schema(&self) {
        assert(kinds_of(self.fields()) =~= Self::schema());
    }

    fn kinds() -> (r: Vec<FieldKind>) {
        let r = vec![FieldKind::U32, FieldKind::U32];
        assert(r@ =~= Self::schema());
        r
    }

    fn to_fields(&self) -> (r: Vec<Field>) {
        let r = vec![
            Field::U32(self.fid),
            Field::U32(self.datasync),
        ];
        assert(fields_view(r@) =~= self.fields());
        r
    }

    fn from_fields(fs: Vec<Field>) -> (r: Option<Self>) {
        let ghost fs0 = fs@;
        let ghost orig = fields_view(fs0);
        if fs.len() != 2 {
            proof {
                assert(kinds_of(orig).len() == orig.len());
            }
            return None;
        }
        let mut fs = fs;
        proof {
            assert(fs@ =~= fs0.take(2));
            assert(orig[1] == field_view(fs0[1]));
            if kinds_of(orig) == Self::schema() {
                assert(kinds_of(orig)[1] == kind_of(orig[1]));
            }
        }
        let x1 = match fs.pop() {
            Some(Field::U32(v)) => v,
            _ => {
                return None;
            },
        };
        proof {
            assert(fs@ =~= fs0.take(1));
            assert(orig[0] == field_view(fs0[0]));
            if kinds_of(orig) == Self::schema() {
                assert(kinds_of(orig)[0] == kind_of(orig[0]));
            }
        }
        let x0 = match fs.pop() {
            Some(Field::U32(v)) => v,
            _ => {
                return None;
            },
        };
        let m = Tfsync { fid: x0, datasync: x1 };
        proof {
            assert(orig[0] == FieldV::U32(m.fid));
            assert(orig[1] == FieldV::U32(m.datasync));
            assert(m.fields() =~= orig);
        }
        Some(m)
    }
}

impl WireMessage for Tgetattr {
    open spec fn fields(&self) -> Seq<FieldV> {
        seq![
            FieldV::U32(self.fid),
            FieldV::U64(self.request_mask),
        ]
    }

    open spec fn schema() -> Seq<FieldKind> {
        seq![FieldKind::U32, FieldKind::U64]
    }

    proof fn lemma_schema(&self) {
        assert(kinds_of(self.fields()) =~= Self::schema());
    }

    fn kinds() -> (r: Vec<FieldKind>) {
        let r = vec![FieldKind::U32, FieldKind::U64];
        assert(r@ =~= Self::schema());
        r
    }

    fn to_fields(&self) -> (r: Vec<Field>) {
        let r = vec![
            Field::U32(self.fid),
            Field::U64(self.request_mask),
        ];
        assert(fields_view(r@) =~= self.fields());
        r
    }

    fn from_fields(fs: Vec<Field>) -> (r: Option<Self>) {
        let ghost fs0 = fs@;
        let ghost orig = fields_view(fs0);
        if fs.len() != 2 {
            proof {
                assert(kinds_of(orig).len() == orig.len());
            }
            return None;
        }
        let mut fs = fs;
        proof {
            assert(fs@ =~= fs0.take(2));
            assert(orig[1] == field_view(fs0[1]));
            if kinds_of(orig) == Self::schema() {
                assert(kinds_of(orig)[1] == kind_of(orig[1]));
            }
        }
        let x1 = match fs.pop() {
            Some(Field::U64(v)) => v,
            _ => {
                return None;
            },
        };
        proof {
            assert(fs@ =~= fs0.take(1));
            assert(orig[0] == field_view(fs0[0]));
            if kinds_of(orig) == Self::schema() {
                assert(kinds_of(orig)[0] == kind_of(orig[0]));
            }
        }
        let x0 = match fs.pop() {
            Some(Field::U32(v)) => v,
            _ => {
                return None;
            },
        };
        let m = Tgetattr { fid: x0, request_mask: x1 };
        proof {
            assert(orig[0] == FieldV::U32(m.fid));
            assert(orig[1] == FieldV::U64(m.request_mask));
            assert(m.fields() =~= orig);
        }
        Some(m)
    }
}

impl WireMessage for Rgetattr {
    open spec fn fields(&self) -> Seq<FieldV> {
        seq![
            FieldV::U64(self.valid),
            FieldV::Qid(self.qid),
            FieldV::U32(self.mode),
            FieldV::U32(self.uid),
            FieldV::U32(self.gid),
            FieldV::U64(self.nlink),
            FieldV::U64(self.rdev),
            FieldV::U64(self.size),
            FieldV::U64(self.blksize),
            FieldV::U64(self.blocks),
            FieldV::U64(self.atime_sec),
            FieldV::U64(self.atime_nsec),
            FieldV::U64(self.mtime_sec),
            FieldV::U64(self.mtime_nsec),
            FieldV::U64(self.ctime_sec),
            FieldV::U64(self.ctime_nsec),
            FieldV::U64(self.btime_sec),
            FieldV::U64(self.btime_nsec),
            FieldV::U64(self.gen),
            FieldV::U64(self.data_version),
        ]
    }

    open spec fn schema() -> Seq<FieldKind> {
        seq![FieldKind::U64, FieldKind::Qid, FieldKind::U32, FieldKind::U32, FieldKind::U32, FieldKind::U64, FieldKind::U64, FieldKind::U64, FieldKind::U64, FieldKind::U64, FieldKind::U64, FieldKind::U64, FieldKind::U64, FieldKind::U64, FieldKind::U64, FieldKind::U64, FieldKind::U64, FieldKind::U64, FieldKind::U64, FieldKind::U64]
    }

    proof fn lemma_schema(&self) {
        assert(kinds_of(self.fields()) =~= Self::schema());
    }

    fn kinds() -> (r: Vec<FieldKind>) {
        let r = vec![FieldKind::U64, FieldKind::Qid, FieldKind::U32, FieldKind::U32, FieldKind::U32, FieldKind::U64, FieldKind::U64, FieldKind::U64, FieldKind::U64, FieldKind::U64, FieldKind::U64, FieldKind::U64, FieldKind::U64, FieldKind::U64, FieldKind::U64, FieldKind::U64, FieldKind::U64, FieldKind::U64, FieldKind::U64, FieldKind::U64];
        assert(r@ =~= Self::schema());
        r
    }

    fn to_fields(&self) -> (r: Vec<Field>) {
        let r = vec![
            Field::U64(self.valid),
            Field::Qid(self.qid),
            Field::U32(self.mode),
            Field::U32(self.uid),
            Field::U32(self.gid),
            Field::U64(self.nlink),
            Field::U64(self.rdev),
            Field::U64(self.size),
            Field::U64(self.blksize),
            Field::U64(self.blocks),
            Field::U64(self.atime_sec),
            Field::U64(self.atime_nsec),
            Field::U64(self.mtime_sec),
            Field::U64(self.mtime_nsec),
            Field::U64(self.ctime_sec),
            Field::U64(self.ctime_nsec),
            Field::U64(self.btime_sec),
            Field::U64(self.btime_nsec),
            Field::U64(self.gen),
            Field::U64(self.data_version),
        ];
        assert(fields_view(r@) =~= self.fields());
        r
    }

    fn from_fields(fs: Vec<Field>) -> (r: Option<Self>) {
        let ghost fs0 = fs@;
        let ghost orig = fields_view(fs0);
        if fs.len() != 20 {
            proof {
                assert(kinds_of(orig).len() == orig.len());
            }
            return None;
        }
        let mut fs = fs;
        proof {
            assert(fs@ =~= fs0.take(20));
            assert(orig[19] == field_view(fs0[19]));
            if kinds_of(orig) == Self::schema() {
                assert(kinds_of(orig)[19] == kind_of(orig[19]));
            }
        }
        let x19 = match fs.pop() {
            Some(Field::U64(v)) => v,
            _ => {
                return None;
            },
        };
        proof {
            assert(fs@ =~= fs0.take(19));
            assert(orig[18] == field_view(fs0[18]));
            if kinds_of(orig) == Self::schema() {
                assert(kinds_of(orig)[18] == kind_of(orig[18]));
            }
        }
        let x18 = match fs.pop() {
            Some(Field::U64(v)) => v,
            _ => {
                return None;
            },
        };
        proof {
            assert(fs@ =~= fs0.take(18));
            assert(orig[17] == field_view(fs0[17]));
            if kinds_of(orig) == Self::schema() {
                assert(kinds_of(orig)[17] == kind_of(orig[17]));
            }
        }
        let x17 = match fs.pop() {
            Some(Field::U64(v)) => v,
            _ => {
                return None;
            },
        };
        proof {
            assert(fs@ =~= fs0.take(17));
            assert(orig[16] == field_view(fs0[16]));
            if kinds_of(orig) == Self::schema() {
                assert(kinds_of(orig)[16] == kind_of(orig[16]));
            }
        }
        let x16 = match fs.pop() {
            Some(Field::U64(v)) => v,
            _ => {
                return None;
            },
        };
        proof {
            assert(fs@ =~= fs0.take(16));
            assert(orig[15] == field_view(fs0[15]));
            if kinds_of(orig) == Self::schema() {
                assert(kinds_of(orig)[15] == kind_of(orig[15]));
            }
        }
        let x15 = match fs.pop() {
            Some(Field::U64(v)) => v,
            _ => {
                return None;
            },
        };
        proof {
            assert(fs@ =~= fs0.take(15));
            assert(orig[14] == field_view(fs0[14]));
            if kinds_of(orig) == Self::schema() {
                assert(kinds_of(orig)[14] == kind_of(orig[14]));
            }
        }
        let x14 = match fs.pop() {
            Some(Field::U64(v)) => v,
            _ => {
                return None;
            },
        };
        proof {
            assert(fs@ =~= fs0.take(14));
            assert(orig[13] == field_view(fs0[13]));
            if kinds_of(orig) == Self::schema() {
                assert(kinds_of(orig)[13] == kind_of(orig[13]));
            }
        }
        let x13 = match fs.pop() {
            Some(Field::U64(v)) => v,
            _ => {
                return None;
            },
        };
        proof {
            assert(fs@ =~= fs0.take(13));
            assert(orig[12] == field_view(fs0[12]));
            if kinds_of(orig) == Self::schema() {
                assert(kinds_of(orig)[12] == kind_of(orig[12]));
            }
        }
        let x12 = match fs.pop() {
            Some(Field::U64(v)) => v,
            _ => {
                return None;
            },
        };
        proof {
            assert(fs@ =~= fs0.take(12));
            assert(orig[11] == field_view(fs0[11]));
            if kinds_of(orig) == Self::schema() {
                assert(kinds_of(orig)[11] == kind_of(orig[11]));
            }
        }
        let x11 = match fs.pop() {
            Some(Field::U64(v)) => v,
            _ => {
                return None;
            },
        };
        proof {
            assert(fs@ =~= fs0.take(11));
            assert(orig[10] == field_view(fs0[10]));
            if kinds_of(orig) == Self::schema() {
                assert(kinds_of(orig)[10] == kind_of(orig[10]));
            }
        }
        let x10 = match fs.pop() {
            Some(Field::U64(v)) => v,
            _ => {
                return None;
            },
        };
        proof {
            assert(fs@ =~= fs0.take(10));
            assert(orig[9] == field_view(fs0[9]));
            if kinds_of(orig) == Self::schema() {
                assert(kinds_of(orig)[9] == kind_of(orig[9]));
            }
        }
        let x9 = match fs.pop() {
            Some(Field::U64(v)) => v,
            _ => {
                return None;
            },
        };
        proof {
            assert(fs@ =~= fs0.take(9));
            assert(orig[8] == field_view(fs0[8]));
            if kinds_of(orig) == Self::schema() {
                assert(kinds_of(orig)[8] == kind_of(orig[8]));
            }
        }
        let x8 = match fs.pop() {
            Some(Field::U64(v)) => v,
            _ => {
                return None;
            },
        };
        proof {
            assert(fs@ =~= fs0.take(8));
            assert(orig[7] == field_view(fs0[7]));
            if kinds_of(orig) == Self::schema() {
                assert(kinds_of(orig)[7] == kind_of(orig[7]));
            }
        }
        let x7 = match fs.pop() {
            Some(Field::U64(v)) => v,
            _ => {
                return None;
            },
        };
        proof {
            assert(fs@ =~= fs0.take(7));
            assert(orig[6] == field_view(fs0[6]));
            if kinds_of(orig) == Self::schema() {
                assert(kinds_of(orig)[6] == kind_of(orig[6]));
            }
        }
        let x6 = match fs.pop() {
            Some(Field::U64(v)) => v,
            _ => {
                return None;
            },
        };
        proof {
            assert(fs@ =~= fs0.take(6));
            assert(orig[5] == field_view(fs0[5]));
            if kinds_of(orig) == Self::schema() {
                assert(kinds_of(orig)[5] == kind_of(orig[5]));
            }
        }
        let x5 = match fs.pop() {
            Some(Field::U64(v)) => v,
            _ => {
                return None;
            },
        };
        proof {
            assert(fs@ =~= fs0.take(5));
            assert(orig[4] == field_view(fs0[4]));
            if kinds_of(orig) == Self::schema() {
                assert(kinds_of(orig)[4] == kind_of(orig[4]));
            }
        }
        let x4 = match fs.pop() {
            Some(Field::U32(v)) => v,
            _ => {
                return None;
            },
        };
        proof {
            assert(fs@ =~= fs0.take(4));
            assert(orig[3] == field_view(fs0[3]));
            if kinds_of(orig) == Self::schema() {
                assert(kinds_of(orig)[3] == kind_of(orig[3]));
            }
        }
        let x3 = match fs.pop() {
            Some(Field::U32(v)) => v,
            _ => {
                return None;
            },
        };
        proof {
            assert(fs@ =~= fs0.take(3));
            assert(orig[2] == field_view(fs0[2]));
            if kinds_of(orig) == Self::schema() {
                assert(kinds_of(orig)[2] == kind_of(orig[2]));
            }
        }
        let x2 = match fs.pop() {
            Some(Field::U32(v)) => v,
            _ => {
                return None;
            },
        };
        proof {
            assert(fs@ =~= fs0.take(2));
            assert(orig[1] == field_view(fs0[1]));
            if kinds_of(orig) == Self::schema() {
                assert(kinds_of(orig)[1] == kind_of(orig[1]));
            }
        }
        let x1 = match fs.pop() {
            Some(Field::Qid(v)) => v,
            _ => {
                return None;
            },
        };
        proof {
            assert(fs@ =~= fs0.take(1));
            assert(orig[0] == field_view(fs0[0]));
            if kinds_of(orig) == Self::schema() {
                assert(kinds_of(orig)[0] == kind_of(orig[0]));
            }
        }
        let x0 = match fs.pop() {
            Some(Field::U64(v)) => v,
            _ => {
                return None;
            },
        };
        let m = Rgetattr { valid: x0, qid: x1, mode: x2, uid: x3, gid: x4, nlink: x5, rdev: x6, size: x7, blksize: x8, blocks: x9, atime_sec: x10, atime_nsec: x11, mtime_sec: x12, mtime_nsec: x13, ctime_sec: x14, ctime_nsec: x15, btime_sec: x16, btime_nsec: x17, gen: x18, data_version: x19 };
        proof {
            assert(orig[0] == FieldV::U64(m.valid));
            assert(orig[1] == FieldV::Qid(m.qid));
            assert(orig[2] == FieldV::U32(m.mode));
            assert(orig[3] == FieldV::U32(m.uid));
            assert(orig[4] == FieldV::U32(m.gid));
            assert(orig[5] == FieldV::U64(m.nlink));
            assert(orig[6] == FieldV::U64(m.rdev));
            assert(orig[7] == FieldV::U64(m.size));
            assert(orig[8] == FieldV::U64(m.blksize));
            assert(orig[9] == FieldV::U64(m.blocks));
            assert(orig[10] == FieldV::U64(m.atime_sec));
            assert(orig[11] == FieldV::U64(m.atime_nsec));
            assert(orig[12] == FieldV::U64(m.mtime_sec));
            assert(orig[13] == FieldV::U64(m.mtime_nsec));
            assert(orig[14] == FieldV::U64(m.ctime_sec));
            assert(orig[15] == FieldV::U64(m.ctime_nsec));
            assert(orig[16] == FieldV::U64(m.btime_sec));
            assert(orig[17] == FieldV::U64(m.btime_nsec));
            assert(orig[18] == FieldV::U64(m.gen));
            assert(orig[19] == FieldV::U64(m.data_version));
            assert(m.fields() =~= orig);
        }
        Some(m)
    }
}

impl WireMessage for Tsetattr {
    open spec fn fields(&self) -> Seq<FieldV> {
        seq![
            FieldV::U32(self.fid),
            FieldV::U32(self.valid),
            FieldV::U32(self.mode),
            FieldV::U32(self.uid),
            FieldV::U32(self.gid),
            FieldV::U64(self.size),
            FieldV::U64(self.atime_sec),
            FieldV::U64(self.atime_nsec),
            FieldV::U64(self.mtime_sec),
            FieldV::U64(self.mtime_nsec),
        ]
    }

    open spec fn schema() -> Seq<FieldKind> {
        seq![FieldKind::U32, FieldKind::U32, FieldKind::U32, FieldKind::U32, FieldKind::U32, FieldKind::U64, FieldKind::U64, FieldKind::U64, FieldKind::U64, FieldKind::U64]
    }

    proof fn lemma_schema(&self) {
        assert(kinds_of(self.fields()) =~= Self::schema());
    }

    fn kinds() -> (r: Vec<FieldKind>) {
        let r = vec![FieldKind::U32, FieldKind::U32, FieldKind::U32, FieldKind::U32, FieldKind::U32, FieldKind::U64, FieldKind::U64, FieldKind::U64, FieldKind::U64, FieldKind::U64];
        assert(r@ =~= Self::schema());
        r
    }

    fn to_fields(&self) -> (r: Vec<Field>) {
        let r = vec![
            Field::U32(self.fid),
            Field::U32(self.valid),
            Field::U32(self.mode),
            Field::U32(self.uid),
            Field::U32(self.gid),
            Field::U64(self.size),
            Field::U64(self.atime_sec),
            Field::U64(self.atime_nsec),
            Field::U64(self.mtime_sec),
            Field::U64(self.mtime_nsec),
        ];
        assert(fields_view(r@) =~= self.fields());
        r
    }

    fn from_fields(fs: Vec<Field>) -> (r: Option<Self>) {
        let ghost fs0 = fs@;
        let ghost orig = fields_view(fs0);
        if fs.len() != 10 {
            proof {
                assert(kinds_of(orig).len() == orig.len());
            }
            return None;
        }
        let mut fs = fs;
        proof {
            assert(fs@ =~= fs0.take(10));
            assert(orig[9] == field_view(fs0[9]));
            if kinds_of(orig) == Self::schema() {
                assert(kinds_of(orig)[9] == kind_of(orig[9]));
            }
        }
        let x9 = match fs.pop() {
            Some(Field::U64(v)) => v,
            _ => {
                return None;
            },
        };
        proof {
            assert(fs@ =~= fs0.take(9));
            assert(orig[8] == field_view(fs0[8]));
            if kinds_of(orig) == Self::schema() {
                assert(kinds_of(orig)[8] == kind_of(orig[8]));
            }
        }
        let x8 = match fs.pop() {
            Some(Field::U64(v)) => v,
            _ => {
                return None;
            },
        };
        proof {
            assert(fs@ =~= fs0.take(8));
            assert(orig[7] == field_view(fs0[7]));
            if kinds_of(orig) == Self::schema() {
                assert(kinds_of(orig)[7] == kind_of(orig[7]));
            }
        }
        let x7 = match fs.pop() {
            Some(Field::U64(v)) => v,
            _ => {
                return None;
            },
        };
        proof {
            assert(fs@ =~= fs0.take(7));
            assert(orig[6] == field_view(fs0[6]));
            if kinds_of(orig) == Self::schema() {
                assert(kinds_of(orig)[6] == kind_of(orig[6]));
            }
        }
        let x6 = match fs.pop() {
            Some(Field::U64(v)) => v,
            _ => {
                return None;
            },
        };
        proof {
            assert(fs@ =~= fs0.take(6));
            assert(orig[5] == field_view(fs0[5]));
            if kinds_of(orig) == Self::schema() {
                assert(kinds_of(orig)[5] == kind_of(orig[5]));
            }
        }
        let x5 = match fs.pop() {
            Some(Field::U64(v)) => v,
            _ => {
                return None;
            },
        };
        proof {
            assert(fs@ =~= fs0.take(5));
            assert(orig[4] == field_view(fs0[4]));
            if kinds_of(orig) == Self::schema() {
                assert(kinds_of(orig)[4] == kind_of(orig[4]));
            }
        }
        let x4 = match fs.pop() {
            Some(Field::U32(v)) => v,
            _ => {
                return None;
            },
        };
        proof {
            assert(fs@ =~= fs0.take(4));
            assert(orig[3] == field_view(fs0[3]));
            if kinds_of(orig) == Self::schema() {
                assert(kinds_of(orig)[3] == kind_of(orig[3]));
            }
        }
        let x3 = match fs.pop() {
            Some(Field::U32(v)) => v,
            _ => {
                return None;
            },
        };
        proof {
            assert(fs@ =~= fs0.take(3));
            assert(orig[2] == field_view(fs0[2]));
            if kinds_of(orig) == Self::schema() {
                assert(kinds_of(orig)[2] == kind_of(orig[2]));
            }
        }
        let x2 = match fs.pop() {
            Some(Field::U32(v)) => v,
            _ => {
                return None;
            },
        };
        proof {
            assert(fs@ =~= fs0.take(2));
            assert(orig[1] == field_view(fs0[1]));
            if kinds_of(orig) == Self::schema() {
                assert(kinds_of(orig)[1] == kind_of(orig[1]));
            }
        }
        let x1 = match fs.pop() {
            Some(Field::U32(v)) => v,
            _ => {
                return None;
            },
        };
        proof {
            assert(fs@ =~= fs0.take(1));
            assert(orig[0] == field_view(fs0[0]));
            if kinds_of(orig) == Self::schema() {
                assert(kinds_of(orig)[0] == kind_of(orig[0]));
            }
        }
        let x0 = match fs.pop() {
            Some(Field::U32(v)) => v,
            _ => {
                return None;
            },
        };
        let m = Tsetattr { fid: x0, valid: x1, mode: x2, uid: x3, gid: x4, size: x5, atime_sec: x6, atime_nsec: x7, mtime_sec: x8, mtime_nsec: x9 };
        proof {
            assert(orig[0] == FieldV::U32(m.fid));
            assert(orig[1] == FieldV::U32(m.valid));
            assert(orig[2] == FieldV::U32(m.mode));
            assert(orig[3] == FieldV::U32(m.uid));
            assert(orig[4] == FieldV::U32(m.gid));
            assert(orig[5] == FieldV::U64(m.size));
            assert(orig[6] == FieldV::U64(m.atime_sec));
            assert(orig[7] == FieldV::U64(m.atime_nsec));
            assert(orig[8] == FieldV::U64(m.mtime_sec));
            assert(orig[9] == FieldV::U64(m.mtime_nsec));
            assert(m.fields() =~= orig);
        }
        Some(m)
    }
}

impl WireMessage for Treaddir {
    open spec fn fields(&self) -> Seq<FieldV> {
        seq![
            FieldV::U32(self.fid),
            FieldV::U64(self.offset),
            FieldV::U32(self.count),
        ]
    }

    open spec fn schema() -> Seq<FieldKind> {
        seq![FieldKind::U32, FieldKind::U64, FieldKind::U32]
    }

    proof fn lemma_schema(&self) {
        assert(kinds_of(self.fields()) =~= Self::schema());
    }

    fn kinds() -> (r: Vec<FieldKind>) {
        let r = vec![FieldKind::U32, FieldKind::U64, FieldKind::U32];
        assert(r@ =~= Self::schema());
        r
    }

    fn to_fields(&self) -> (r: Vec<Field>) {
        let r = vec![
            Field::U32(self.fid),
            Field::U64(self.offset),
            Field::U32(self.count),
        ];
        assert(fields_view(r@) =~= self.fields());
        r
    }

    fn from_fields(fs: Vec<Field>) -> (r: Option<Self>) {
        let ghost fs0 = fs@;
        let ghost orig = fields_view(fs0);
        if fs.len() != 3 {
            proof {
                assert(kinds_of(orig).len() == orig.len());
            }
            return None;
        }
        let mut fs = fs;
        proof {
            assert(fs@ =~= fs0.take(3));
            assert(orig[2] == field_view(fs0[2]));
            if kinds_of(orig) == Self::schema() {
                assert(kinds_of(orig)[2] == kind_of(orig[2]));
            }
        }
        let x2 = match fs.pop() {
            Some(Field::U32(v)) => v,
            _ => {
                return None;
            },
        };
        proof {
            assert(fs@ =~= fs0.take(2));
            assert(orig[1] == field_view(fs0[1]));
            if kinds_of(orig) == Self::schema() {
                assert(kinds_of(orig)[1] == kind_of(orig[1]));
            }
        }
        let x1 = match fs.pop() {
            Some(Field::U64(v)) => v,
            _ => {
                return None;
            },
        };
        proof {
            assert(fs@ =~= fs0.take(1));
            assert(orig[0] == field_view(fs0[0]));
            if kinds_of(orig) == Self::schema() {
                assert(kinds_of(orig)[0] == kind_of(orig[0]));
            }
        }
        let x0 = match fs.pop() {
            Some(Field::U32(v)) => v,
            _ => {
                return None;
            },
        };
        let m = Treaddir { fid: x0, offset: x1, count: x2 };
        proof {
            assert(orig[0] == FieldV::U32(m.fid));
            assert(orig[1] == FieldV::U64(m.offset));
            assert(orig[2] == FieldV::U32(m.count));
            assert(m.fields() =~= orig);
        }
        Some(m)
    }
}

impl WireMessage for Rreaddir {
    open spec fn fields(&self) -> Seq<FieldV> {
        seq![
            FieldV::Data(self.data@),
        ]
    }

    open spec fn schema() -> Seq<FieldKind> {
        seq![FieldKind::Data]
    }

    proof fn lemma_schema(&self) {
        assert(kinds_of(self.fields()) =~= Self::schema());
    }

    fn kinds() -> (r: Vec<FieldKind>) {
        let r = vec![FieldKind::Data];
        assert(r@ =~= Self::schema());
        r
    }

    fn to_fields(&self) -> (r: Vec<Field>) {
        let r = vec![
            Field::Data(copy_bytes(&self.data)),
        ];
        assert(fields_view(r@) =~= self.fields());
        r
    }

    fn from_fields(fs: Vec<Field>) -> (r: Option<Self>) {
        let ghost fs0 = fs@;
        let ghost orig = fields_view(fs0);
        if fs.len() != 1 {
            proof {
                assert(kinds_of(orig).len() == orig.len());
            }
            return None;
        }
        let mut fs = fs;
        proof {
            assert(fs@ =~= fs0.take(1));
            assert(orig[0] == field_view(fs0[0]));
            if kinds_of(orig) == Self::schema() {
                assert(kinds_of(orig)[0] == kind_of(orig[0]));
            }
        }
        let x0 = match fs.pop() {
            Some(Field::Data(v)) => v,
            _ => {
                return None;
            },
        };
        let m = Rreaddir { data: x0 };
        proof {
            assert(orig[0] == FieldV::Data(m.data@));
            assert(m.fields() =~= orig);
        }
        Some(m)
    }
}

impl WireMessage for Tmkdir {
    open spec fn fields(&self) -> Seq<FieldV> {
        seq![
            FieldV::U32(self.dfid),
            FieldV::Str(self.name@),
            FieldV::U32(self.mode),
            FieldV::U32(self.gid),
        ]
    }

    open spec fn schema() -> Seq<FieldKind> {
        seq![FieldKind::U32, FieldKind::Str, FieldKind::U32, FieldKind::U32]
    }

    proof fn lemma_schema(&self) {
        assert(kinds_of(self.fields()) =~= Self::schema());
    }

    fn kinds() -> (r: Vec<FieldKind>) {
        let r = vec![FieldKind::U32, FieldKind::Str, FieldKind::U32, FieldKind::U32];
        assert(r@ =~= Self::schema());
        r
    }

    fn to_fields(&self) -> (r: Vec<Field>) {
        let r = vec![
            Field::U32(self.dfid),
            Field::Str(self.name.clone()),
            Field::U32(self.mode),
            Field::U32(self.gid),
        ];
        assert(fields_view(r@) =~= self.fields());
        r
    }

    fn from_fields(fs: Vec<Field>) -> (r: Option<Self>) {
        let ghost fs0 = fs@;
        let ghost orig = fields_view(fs0);
        if fs.len() != 4 {
            proof {
                assert(kinds_of(orig).len() == orig.len());
            }
            return None;
        }
        let mut fs = fs;
        proof {
            assert(fs@ =~= fs0.take(4));
            assert(orig[3] == field_view(fs0[3]));
            if kinds_of(orig) == Self::schema() {
                assert(kinds_of(orig)[3] == kind_of(orig[3]));
            }
        }
        let x3 = match fs.pop() {
            Some(Field::U32(v)) => v,
            _ => {
                return None;
            },
        };
        proof {
            assert(fs@ =~= fs0.take(3));
            assert(orig[2] == field_view(fs0[2]));
            if kinds_of(orig) == Self::schema() {
                assert(kinds_of(orig)[2] == kind_of(orig[2]));
            }
        }
        let x2 = match fs.pop() {
            Some(Field::U32(v)) => v,
            _ => {
                return None;
            },
        };
        proof {
            assert(fs@ =~= fs0.take(2));
            assert(orig[1] == field_view(fs0[1]));
            if kinds_of(orig) == Self::schema() {
                assert(kinds_of(orig)[1] == kind_of(orig[1]));
            }
        }
        let x1 = match fs.pop() {
            Some(Field::Str(v)) => v,
            _ => {
                return None;
            },
        };
        proof {
            assert(fs@ =~= fs0.take(1));
            assert(orig[0] == field_view(fs0[0]));
            if kinds_of(orig) == Self::schema() {
                assert(kinds_of(orig)[0] == kind_of(orig[0]));
            }
        }
        let x0 = match fs.pop() {
            Some(Field::U32(v)) => v,
            _ => {
                return None;
            },
        };
        let m = Tmkdir { dfid: x0, name: x1, mode: x2, gid: x3 };
        proof {
            assert(orig[0] == FieldV::U32(m.dfid));
            assert(orig[1] == FieldV::Str(m.name@));
            assert(orig[2] == FieldV::U32(m.mode));
            assert(orig[3] == FieldV::U32(m.gid));
            assert(m.fields() =~= orig);
        }
        Some(m)
    }
}

impl WireMessage for Rmkdir {
    open spec fn fields(&self) -> Seq<FieldV> {
        seq![
            FieldV::Qid(self.qid),
        ]
    }

    open spec fn schema() -> Seq<FieldKind> {
        seq![FieldKind::Qid]
    }

    proof fn lemma_schema(&self) {
        assert(kinds_of(self.fields()) =~= Self::schema());
    }

    fn kinds() -> (r: Vec<FieldKind>) {
        let r = vec![FieldKind::Qid];
        assert(r@ =~= Self::schema());
        r
    }

    fn to_fields(&self) -> (r: Vec<Field>) {
        let r = vec![
            Field::Qid(self.qid),
        ];
        assert(fields_view(r@) =~= self.fields());
        r
    }

    fn from_fields(fs: Vec<Field>) -> (r: Option<Self>) {
        let ghost fs0 = fs@;
        let ghost orig = fields_view(fs0);
        if fs.len() != 1 {
            proof {
                assert(kinds_of(orig).len() == orig.len());
            }
            return None;
        }
        let mut fs = fs;
        proof {
            assert(fs@ =~= fs0.take(1));
            assert(orig[0] == field_view(fs0[0]));
            if kinds_of(orig) == Self::schema() {
                assert(kinds_of(orig)[0] == kind_of(orig[0]));
            }
        }
        let x0 = match fs.pop() {
            Some(Field::Qid(v)) => v,
            _ => {
                return None;
            },
        };
        let m = Rmkdir { qid: x0 };
        proof {
            assert(orig[0] == FieldV::Qid(m.qid));
            assert(m.fields() =~= orig);
        }
        Some(m)
    }
}

impl WireMessage for Tremove {
    open spec fn fields(&self) -> Seq<FieldV> {
        seq![
            FieldV::U32(self.fid),
        ]
    }

    open spec fn schema() -> Seq<FieldKind> {
        seq![FieldKind::U32]
    }

    proof fn lemma_schema(&self) {
        assert(kinds_of(self.fields()) =~= Self::schema());
    }

    fn kinds() -> (r: Vec<FieldKind>) {
        let r = vec![FieldKind::U32];
        assert(r@ =~= Self::schema());
        r
    }

    fn to_fields(&self) -> (r: Vec<Field>) {
        let r = vec![
            Field::U32(self.fid),
        ];
        assert(fields_view(r@) =~= self.fields());
        r
    }

    fn from_fields(fs: Vec<Field>) -> (r: Option<Self>) {
        let ghost fs0 = fs@;
        let ghost orig = fields_view(fs0);
        if fs.len() != 1 {
            proof {
                assert(kinds_of(orig).len() == orig.len());
            }
            return None;
        }
        let mut fs = fs;
        proof {
            assert(fs@ =~= fs0.take(1));
            assert(orig[0] == field_view(fs0[0]));
            if kinds_of(orig) == Self::schema() {
                assert(kinds_of(orig)[0] == kind_of(orig[0]));
            }
        }
        let x0 = match fs.pop() {
            Some(Field::U32(v)) => v,
            _ => {
                return None;
            },
        };
        let m = Tremove { fid: x0 };
        proof {
            assert(orig[0] == FieldV::U32(m.fid));
            assert(m.fields() =~= orig);
        }
        Some(m)
    }
}

impl WireMessage for Trename {
    open spec fn fields(&self) -> Seq<FieldV> {
        seq![
            FieldV::U32(self.fid),
            FieldV::U32(self.dfid),
            FieldV::Str(self.name@),
        ]
    }

    open spec fn schema() -> Seq<FieldKind> {
        seq![FieldKind::U32, FieldKind::U32, FieldKind::Str]
    }

    proof fn lemma_schema(&self) {
        assert(kinds_of(self.fields()) =~= Self::schema());
    }

    fn kinds() -> (r: Vec<FieldKind>) {
        let r = vec![FieldKind::U32, FieldKind::U32, FieldKind::Str];
        assert(r@ =~= Self::schema());
        r
    }

    fn to_fields(&self) -> (r: Vec<Field>) {
        let r = vec![
            Field::U32(self.fid),
            Field::U32(self.dfid),
            Field::Str(self.name.clone()),
        ];
        assert(fields_view(r@) =~= self.fields());
        r
    }

    fn from_fields(fs: Vec<Field>) -> (r: Option<Self>) {
        let ghost fs0 = fs@;
        let ghost orig = fields_view(fs0);
        if fs.len() != 3 {
            proof {
                assert(kinds_of(orig).len() == orig.len());
            }
            return None;
        }
        let mut fs = fs;
        proof {
            assert(fs@ =~= fs0.take(3));
            assert(orig[2] == field_view(fs0[2]));
            if kinds_of(orig) == Self::schema() {
                assert(kinds_of(orig)[2] == kind_of(orig[2]));
            }
        }
        let x2 = match fs.pop() {
            Some(Field::Str(v)) => v,
            _ => {
                return None;
            },
        };
        proof {
            assert(fs@ =~= fs0.take(2));
            assert(orig[1] == field_view(fs0[1]));
            if kinds_of(orig) == Self::schema() {
                assert(kinds_of(orig)[1] == kind_of(orig[1]));
            }
        }
        let x1 = match fs.pop() {
            Some(Field::U32(v)) => v,
            _ => {
                return None;
            },
        };
        proof {
            assert(fs@ =~= fs0.take(1));
            assert(orig[0] == field_view(fs0[0]));
            if kinds_of(orig) == Self::schema() {
                assert(kinds_of(orig)[0] == kind_of(orig[0]));
            }
        }
        let x0 = match fs.pop() {
            Some(Field::U32(v)) => v,
            _ => {
                return None;
            },
        };
        let m = Trename { fid: x0, dfid: x1, name: x2 };
        proof {
            assert(orig[0] == FieldV::U32(m.fid));
            assert(orig[1] == FieldV::U32(m.dfid));
            assert(orig[2] == FieldV::Str(m.name@));
            assert(m.fields() =~= orig);
        }
        Some(m)
    }
}

impl WireMessage for Trenameat {
    open spec fn fields(&self) -> Seq<FieldV> {
        seq![
            FieldV::U32(self.olddirfid),
            FieldV::Str(self.oldname@),
            FieldV::U32(self.newdirfid),
            FieldV::Str(self.newname@),
        ]
    }

    open spec fn schema() -> Seq<FieldKind> {
        seq![FieldKind::U32, FieldKind::Str, FieldKind::U32, FieldKind::Str]
    }

    proof fn lemma_schema(&self) {
        assert(kinds_of(self.fields()) =~= Self::schema());
    }

    fn kinds() -> (r: Vec<FieldKind>) {
        let r = vec![FieldKind::U32, FieldKind::Str, FieldKind::U32, FieldKind::Str];
        assert(r@ =~= Self::schema());
        r
    }

    fn to_fields(&self) -> (r: Vec<Field>) {
        let r = vec![
            Field::U32(self.olddirfid),
            Field::Str(self.oldname.clone()),
            Field::U32(self.newdirfid),
            Field::Str(self.newname.clone()),
        ];
        assert(fields_view(r@) =~= self.fields());
        r
    }

    fn from_fields(fs: Vec<Field>) -> (r: Option<Self>) {
        let ghost fs0 = fs@;
        let ghost orig = fields_view(fs0);
        if fs.len() != 4 {
            proof {
                assert(kinds_of(orig).len() == orig.len());
            }
            return None;
        }
        let mut fs = fs;
        proof {
            assert(fs@ =~= fs0.take(4));
            assert(orig[3] == field_view(fs0[3]));
            if kinds_of(orig) == Self::schema() {
                assert(kinds_of(orig)[3] == kind_of(orig[3]));
            }
        }
        let x3 = match fs.pop() {
            Some(Field::Str(v)) => v,
            _ => {
                return None;
            },
        };
        proof {
            assert(fs@ =~= fs0.take(3));
            assert(orig[2] == field_view(fs0[2]));
            if kinds_of(orig) == Self::schema() {
                assert(kinds_of(orig)[2] == kind_of(orig[2]));
            }
        }
        let x2 = match fs.pop() {
            Some(Field::U32(v)) => v,
            _ => {
                return None;
            },
        };
        proof {
            assert(fs@ =~= fs0.take(2));
            assert(orig[1] == field_view(fs0[1]));
            if kinds_of(orig) == Self::schema() {
                assert(kinds_of(orig)[1] == kind_of(orig[1]));
            }
        }
        let x1 = match fs.pop() {
            Some(Field::Str(v)) => v,
            _ => {
                return None;
            },
        };
        proof {
            assert(fs@ =~= fs0.take(1));
            assert(orig[0] == field_view(fs0[0]));
            if kinds_of(orig) == Self::schema() {
                assert(kinds_of(orig)[0] == kind_of(orig[0]));
            }
        }
        let x0 = match fs.pop() {
            Some(Field::U32(v)) => v,
            _ => {
                return None;
            },
        };
        let m = Trenameat { olddirfid: x0, oldname: x1, newdirfid: x2, newname: x3 };
        proof {
            assert(orig[0] == FieldV::U32(m.olddirfid));
            assert(orig[1] == FieldV::Str(m.oldname@));
            assert(orig[2] == FieldV::U32(m.newdirfid));
            assert(orig[3] == FieldV::Str(m.newname@));
            assert(m.fields() =~= orig);
        }
        Some(m)
    }
}

impl WireMessage for Tunlinkat {
    open spec fn fields(&self) -> Seq<FieldV> {
        seq![
            FieldV::U32(self.dirfd),
            FieldV::Str(self.name@),
            FieldV::U32(self.flags),
        ]
    }

    open spec fn schema() -> Seq<FieldKind> {
        seq![FieldKind::U32, FieldKind::Str, FieldKind::U32]
    }

    proof fn lemma_schema(&self) {
        assert(kinds_of(self.fields()) =~= Self::schema());
    }

    fn kinds() -> (r: Vec<FieldKind>) {
        let r = vec![FieldKind::U32, FieldKind::Str, FieldKind::U32];
        assert(r@ =~= Self::schema());
        r
    }

    fn to_fields(&self) -> (r: Vec<Field>) {
        let r = vec![
            Field::U32(self.dirfd),
            Field::Str(self.name.clone()),
            Field::U32(self.flags),
        ];
        assert(fields_view(r@) =~= self.fields());
        r
    }

    fn from_fields(fs: Vec<Field>) -> (r: Option<Self>) {
        let ghost fs0 = fs@;
        let ghost orig = fields_view(fs0);
        if fs.len() != 3 {
            proof {
                assert(kinds_of(orig).len() == orig.len());
            }
            return None;
        }
        let mut fs = fs;
        proof {
            assert(fs@ =~= fs0.take(3));
            assert(orig[2] == field_view(fs0[2]));
            if kinds_of(orig) == Self::schema() {
                assert(kinds_of(orig)[2] == kind_of(orig[2]));
            }
        }
        let x2 = match fs.pop() {
            Some(Field::U32(v)) => v,
            _ => {
                return None;
            },
        };
        proof {
            assert(fs@ =~= fs0.take(2));
            assert(orig[1] == field_view(fs0[1]));
            if kinds_of(orig) == Self::schema() {
                assert(kinds_of(orig)[1] == kind_of(orig[1]));
            }
        }
        let x1 = match fs.pop() {
            Some(Field::Str(v)) => v,
            _ => {
                return None;
            },
        };
        proof {
            assert(fs@ =~= fs0.take(1));
            assert(orig[0] == field_view(fs0[0]));
            if kinds_of(orig) == Self::schema() {
                assert(kinds_of(orig)[0] == kind_of(orig[0]));
            }
        }
        let x0 = match fs.pop() {
            Some(Field::U32(v)) => v,
            _ => {
                return None;
            },
        };
        let m = Tunlinkat { dirfd: x0, name: x1, flags: x2 };
        proof {
            assert(orig[0] == FieldV::U32(m.dirfd));
            assert(orig[1] == FieldV::Str(m.name@));
            assert(orig[2] == FieldV::U32(m.flags));
            assert(m.fields() =~= orig);
        }
        Some(m)
    }
}

impl WireMessage for Tclunk {
    open spec fn fields(&self) -> Seq<FieldV> {
        seq![
            FieldV::U32(self.fid),
        ]
    }

    open spec fn schema() -> Seq<FieldKind> {
        seq![FieldKind::U32]
    }

    proof fn lemma_schema(&self) {
        assert(kinds_of(self.fields()) =~= Self::schema());
    }

    fn kinds() -> (r: Vec<FieldKind>) {
        let r = vec![FieldKind::U32];
        assert(r@ =~= Self::schema());
        r
    }

    fn to_fields(&self) -> (r: Vec<Field>) {
        let r = vec![
            Field::U32(self.fid),
        ];
        assert(fields_view(r@) =~= self.fields());
        r
    }

    fn from_fields(fs: Vec<Field>) -> (r: Option<Self>) {
        let ghost fs0 = fs@;
        let ghost orig = fields_view(fs0);
        if fs.len() != 1 {
            proof {
                assert(kinds_of(orig).len() == orig.len());
            }
            return None;
        }
        let mut fs = fs;
        proof {
            assert(fs@ =~= fs0.take(1));
            assert(orig[0] == field_view(fs0[0]));
            if kinds_of(orig) == Self::schema() {
                assert(kinds_of(orig)[0] == kind_of(orig[0]));
            }
        }
        let x0 = match fs.pop() {
            Some(Field::U32(v)) => v,
            _ => {
                return None;
            },
        };
        let m = Tclunk { fid: x0 };
        proof {
            assert(orig[0] == FieldV::U32(m.fid));
            assert(m.fields() =~= orig);
        }
        Some(m)
    }
}

impl WireMessage for Dirent {
    open spec fn fields(&self) -> Seq<FieldV> {
        seq![
            FieldV::Qid(self.qid),
            FieldV::U64(self.offset),
            FieldV::U8(self.ty),
            FieldV::Str(self.name@),
        ]
    }

    open spec fn schema() -> Seq<FieldKind> {
        seq![FieldKind::Qid, FieldKind::U64, FieldKind::U8, FieldKind::Str]
    }

    proof fn lemma_schema(&self) {
        assert(kinds_of(self.fields()) =~= Self::schema());
    }

    fn kinds() -> (r: Vec<FieldKind>) {
        let r = vec![FieldKind::Qid, FieldKind::U64, FieldKind::U8, FieldKind::Str];
        assert(r@ =~= Self::schema());
        r
    }

    fn to_fields(&self) -> (r: Vec<Field>) {
        let r = vec![
            Field::Qid(self.qid),
            Field::U64(self.offset),
            Field::U8(self.ty),
            Field::Str(self.name.clone()),
        ];
        assert(fields_view(r@) =~= self.fields());
        r
    }

    fn from_fields(fs: Vec<Field>) -> (r: Option<Self>) {
        let ghost fs0 = fs@;
        let ghost orig = fields_view(fs0);
        if fs.len() != 4 {
            proof {
                assert(kinds_of(orig).len() == orig.len());
            }
            return None;
        }
        let mut fs = fs;
        proof {
            assert(fs@ =~= fs0.take(4));
            assert(orig[3] == field_view(fs0[3]));
            if kinds_of(orig) == Self::schema() {
                assert(kinds_of(orig)[3] == kind_of(orig[3]));
            }
        }
        let x3 = match fs.pop() {
            Some(Field::Str(v)) => v,
            _ => {
                return None;
            },
        };
        proof {
            assert(fs@ =~= fs0.take(3));
            assert(orig[2] == field_view(fs0[2]));
            if kinds_of(orig) == Self::schema() {
                assert(kinds_of(orig)[2] == kind_of(orig[2]));
            }
        }
        let x2 = match fs.pop() {
            Some(Field::U8(v)) => v,
            _ => {
                return None;
            },
        };
        proof {
            assert(fs@ =~= fs0.take(2));
            assert(orig[1] == field_view(fs0[1]));
            if kinds_of(orig) == Self::schema() {
                assert(kinds_of(orig)[1] == kind_of(orig[1]));
            }
        }
        let x1 = match fs.pop() {
            Some(Field::U64(v)) => v,
            _ => {
                return None;
            },
        };
        proof {
            assert(fs@ =~= fs0.take(1));
            assert(orig[0] == field_view(fs0[0]));
            if kinds_of(orig) == Self::schema() {
                assert(kinds_of(orig)[0] == kind_of(orig[0]));
            }
        }
        let x0 = match fs.pop() {
            Some(Field::Qid(v)) => v,
            _ => {
                return None;
            },
        };
        let m = Dirent { qid: x0, offset: x1, ty: x2, name: x3 };
        proof {
            assert(orig[0] == FieldV::Qid(m.qid));
            assert(orig[1] == FieldV::U64(m.offset));
            assert(orig[2] == FieldV::U8(m.ty));
            assert(orig[3] == FieldV::Str(m.name@));
            assert(m.fields() =~= orig);
        }
        Some(m)
    }
}

} // verus!
