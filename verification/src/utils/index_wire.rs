//! The form in which the root hands the index to the other ranks: everything but the buffers.

use crate::utils::error::ShardError;
use crate::utils::framing;
use crate::utils::framing::{decode_len, encode_len};
use crate::utils::name_map::NameMap;
use crate::utils::tensor_index::{Dist, FileTensors, TensorIndex, TensorMeta, TensorShape};
use crate::utils::text;
use vstd::prelude::*;

verus! {

/// Why bytes could not be written or read.
#[verifier::external_type_specification]
#[verifier::external_body]
pub struct ExErrorKind(bincode::ErrorKind);

/// What is sent of a single tensor: the name of its element type, its dimensions, where its bytes
/// are, the number of the way it is split, and the name of the element type that is wanted.
pub type WireMeta = (String, Result<usize, (usize, usize)>, (usize, usize), u32, Option<String>);

/// What is sent of an index: the tensors by name, the weight files, the names that are listed for
/// each file, and the size of the largest file.
pub type WireIndex = (Vec<(String, WireMeta)>, Vec<String>, Vec<(String, Vec<String>)>, usize);

/// What is sent of a single tensor, over texts.
pub type MetaView = (
    Seq<char>,
    Result<usize, (usize, usize)>,
    (usize, usize),
    u32,
    Option<Seq<char>>,
);

/// What is sent of all tensors, over texts.
pub type TensorsView = Seq<(Seq<char>, MetaView)>;

/// The names that are listed for each file, over texts.
pub type GroupsView = Seq<(Seq<char>, Seq<Seq<char>>)>;

/// The text of an optional string.
pub open spec fn opt_text(s: Option<String>) -> Option<Seq<char>> {
    match s {
        Some(s) => Some(s@),
        None => None,
    }
}

/// What was written down of a single tensor.
pub open spec fn meta_view(m: WireMeta) -> MetaView {
    (m.0@, m.1, m.2, m.3, opt_text(m.4))
}

/// What was written down of all tensors.
pub open spec fn tensors_view(v: Seq<(String, WireMeta)>) -> TensorsView {
    v.map_values(|e: (String, WireMeta)| (e.0@, meta_view(e.1)))
}

/// The lists that were written down.
pub open spec fn groups_view(v: Seq<(String, Vec<String>)>) -> GroupsView {
    v.map_values(|e: (String, Vec<String>)| (e.0@, text::texts(e.1@)))
}

/// The lists of an index.
pub open spec fn listed_groups(v: Seq<FileTensors>) -> GroupsView {
    v.map_values(|g: FileTensors| (g.path@, text::texts(g.names@)))
}

/// The bytes that bincode writes for what is sent of an index.
pub uninterp spec fn wire_bytes(
    tensors: TensorsView,
    files: Seq<Seq<char>>,
    groups: GroupsView,
    size: usize,
) -> Seq<u8>;

/// Calls `bincode::serialize`. Claims that it succeeds, since every length is known and there is
/// no limit, and that the bytes depend on nothing but the values.
#[verifier::external_body]
pub(crate) fn serialize(w: &WireIndex) -> (r: Result<Vec<u8>, bincode::Error>)
    ensures
        r is Ok,
        r matches Ok(b) ==> b@ == wire_bytes(
            tensors_view(w.0@),
            text::texts(w.1@),
            groups_view(w.2@),
            w.3,
        ),
{
    bincode::serialize(w)
}

/// Calls `bincode::deserialize`. Claims that it reads back what was written. What it makes of
/// other bytes is left open.
#[verifier::external_body]
pub(crate) fn deserialize(data: &[u8]) -> (r: Result<WireIndex, bincode::Error>)
    ensures
        forall|t: TensorsView, f: Seq<Seq<char>>, g: GroupsView, n: usize|
            data@ == #[trigger] wire_bytes(t, f, g, n) ==> {
                &&& r is Ok
                &&& tensors_view(r->Ok_0.0@) == t
                &&& text::texts(r->Ok_0.1@) == f
                &&& groups_view(r->Ok_0.2@) == g
                &&& r->Ok_0.3 == n
            },
{
    bincode::deserialize(data)
}

/// The number of a way to split tensors.
pub open spec fn dist_tag(d: Dist) -> u32 {
    match d {
        Dist::Replicated => 0,
        Dist::ColumnSharded => 1,
        Dist::RowSharded => 2,
        Dist::VocabParallel => 3,
    }
}

/// The dimensions as they are sent.
pub open spec fn sent_shape(s: TensorShape) -> Result<usize, (usize, usize)> {
    match s {
        TensorShape::D1(n) => Ok(n),
        TensorShape::D2(r, c) => Err((r, c)),
    }
}

/// What is sent of a tensor: everything but its buffer.
pub open spec fn sent(m: TensorMeta) -> MetaView {
    (m.src_dtype@, sent_shape(m.shape), m.data_offsets, dist_tag(m.dist), opt_text(m.dst_dtype))
}

/// What is sent of all the tensors of an index, in the order in which they were put in.
pub open spec fn sent_tensors(ti: TensorIndex) -> TensorsView {
    ti.tensors.order().map_values(|name: Seq<char>| (name, sent(ti.tensors@[name])))
}

/// The tensors that arrive, by name; of one name, the last counts.
pub open spec fn received(t: TensorsView) -> Map<Seq<char>, MetaView>
    decreases t.len(),
{
    if t.len() == 0 {
        Map::empty()
    } else {
        received(t.drop_last()).insert(t.last().0, t.last().1)
    }
}

/// The tensors of an index are those that arrived, and none has a buffer.
pub open spec fn holds_received(m: Map<Seq<char>, TensorMeta>, t: TensorsView) -> bool {
    &&& m.dom() == received(t).dom()
    &&& forall|k: Seq<char>| #[trigger]
        m.contains_key(k) ==> m[k].buffer is None && sent(m[k]) == received(t)[k]
}

/// `r` is what a rank makes of what arrived: an index, unless a tensor is split in a way that
/// there is none of.
pub open spec fn is_arrival(
    t: TensorsView,
    f: Seq<Seq<char>>,
    g: GroupsView,
    n: usize,
    r: Result<TensorIndex, ShardError>,
) -> bool {
    match r {
        Ok(ti) => {
            &&& forall|i: int| 0 <= i < t.len() ==> (#[trigger] t[i]).1.3 <= 3
            &&& ti.wf()
            &&& holds_received(ti.tensors@, t)
            &&& text::texts(ti.weight_files@) == f
            &&& listed_groups(ti.file_tensors@) == g
            &&& ti.max_file_size == n
        },
        Err(ShardError::UnknownDist { tag }) => exists|i: int|
            0 <= i < t.len() && (#[trigger] t[i]).1.3 == tag && tag > 3 && forall|k: int|
                0 <= k < i ==> (#[trigger] t[k]).1.3 <= 3,
        Err(_) => false,
    }
}

fn copy_texts(v: &Vec<String>) -> (r: Vec<String>)
    ensures
        text::texts(r@) == text::texts(v@),
{
    let mut r: Vec<String> = Vec::new();
    let mut i: usize = 0;
    while i < v.len()
        invariant
            i <= v@.len(),
            text::texts(r@) == text::texts(v@).take(i as int),
        decreases v@.len() - i,
    {
        let ghost before = text::texts(r@);
        r.push(v[i].clone());
        assert(text::texts(r@) =~= before.push(v@[i as int]@));
        assert(text::texts(v@).take(i + 1) =~= text::texts(v@).take(i as int).push(v@[i as int]@));
        i = i + 1;
    }
    assert(text::texts(r@) =~= text::texts(v@));
    r
}

fn copy_opt(s: &Option<String>) -> (r: Option<String>)
    ensures
        opt_text(r) == opt_text(*s),
{
    match s {
        Some(s) => Some(s.clone()),
        None => None,
    }
}

fn to_wire_meta(meta: &TensorMeta) -> (r: WireMeta)
    ensures
        meta_view(r) == sent(*meta),
{
    let shape = match meta.shape {
        TensorShape::D1(n) => Ok(n),
        TensorShape::D2(r, c) => Err((r, c)),
    };
    let tag: u32 = match meta.dist {
        Dist::Replicated => 0,
        Dist::ColumnSharded => 1,
        Dist::RowSharded => 2,
        Dist::VocabParallel => 3,
    };
    (meta.src_dtype.clone(), shape, meta.data_offsets, tag, copy_opt(&meta.dst_dtype))
}

fn from_wire_meta(m: &WireMeta) -> (r: Option<TensorMeta>)
    ensures
        match r {
            Some(meta) => m.3 <= 3 && meta.buffer is None && sent(meta) == meta_view(*m),
            None => m.3 > 3,
        },
{
    let shape = match m.1 {
        Ok(n) => TensorShape::D1(n),
        Err((r, c)) => TensorShape::D2(r, c),
    };
    let dist = if m.3 == 0 {
        Dist::Replicated
    } else if m.3 == 1 {
        Dist::ColumnSharded
    } else if m.3 == 2 {
        Dist::RowSharded
    } else if m.3 == 3 {
        Dist::VocabParallel
    } else {
        return None;
    };
    Some(
        TensorMeta {
            src_dtype: m.0.clone(),
            shape,
            data_offsets: m.2,
            dist,
            buffer: None,
            dst_dtype: copy_opt(&m.4),
        },
    )
}

impl TensorIndex {
    /// Takes out of an index what is sent to the other ranks.
    pub fn to_wire(&self) -> (r: WireIndex)
        requires
            self.wf(),
        ensures
            tensors_view(r.0@) == sent_tensors(*self),
            text::texts(r.1@) == text::texts(self.weight_files@),
            groups_view(r.2@) == listed_groups(self.file_tensors@),
            r.3 == self.max_file_size,
    {
        proof {
            self.tensors.lemma_order();
        }
        let mut tensors: Vec<(String, WireMeta)> = Vec::new();
        let mut i: usize = 0;
        assert(tensors_view(tensors@) =~= sent_tensors(*self).take(0));
        while i < self.tensors.len()
            invariant
                i <= self.tensors.order().len(),
                self.wf(),
                forall|n: Seq<char>|
                    self.tensors.order().contains(n) <==> #[trigger] self.tensors@.contains_key(n),
                tensors_view(tensors@) == sent_tensors(*self).take(i as int),
            decreases self.tensors.order().len() - i,
        {
            let name = self.tensors.name_at(i).clone();
            assert(self.tensors.order().contains(name@));
            let meta = self.tensors.get(name.as_str()).unwrap();
            let parts = to_wire_meta(meta);
            let ghost before = tensors_view(tensors@);
            let ghost all = sent_tensors(*self);
            tensors.push((name, parts));
            assert(tensors_view(tensors@) =~= before.push(all[i as int]));
            assert(all.take(i + 1) =~= all.take(i as int).push(all[i as int]));
            i = i + 1;
        }
        assert(sent_tensors(*self).take(i as int) =~= sent_tensors(*self));
        let mut groups: Vec<(String, Vec<String>)> = Vec::new();
        let mut k: usize = 0;
        assert(groups_view(groups@) =~= listed_groups(self.file_tensors@).take(0));
        while k < self.file_tensors.len()
            invariant
                k <= self.file_tensors@.len(),
                groups_view(groups@) == listed_groups(self.file_tensors@).take(k as int),
            decreases self.file_tensors@.len() - k,
        {
            let path = self.file_tensors[k].path.clone();
            let names = copy_texts(&self.file_tensors[k].names);
            let ghost before = groups_view(groups@);
            let ghost all = listed_groups(self.file_tensors@);
            groups.push((path, names));
            assert(groups_view(groups@) =~= before.push(all[k as int]));
            assert(all.take(k + 1) =~= all.take(k as int).push(all[k as int]));
            k = k + 1;
        }
        assert(listed_groups(self.file_tensors@).take(k as int) =~= listed_groups(
            self.file_tensors@,
        ));
        (tensors, copy_texts(&self.weight_files), groups, self.max_file_size)
    }

    /// Builds the index of a rank from what arrived.
    pub fn from_wire(w: WireIndex) -> (r: Result<TensorIndex, ShardError>)
        ensures
            is_arrival(tensors_view(w.0@), text::texts(w.1@), groups_view(w.2@), w.3, r),
    {
        let (sent_in, weight_files, groups, max_file_size) = w;
        let ghost t = tensors_view(w.0@);
        let mut tensors: NameMap<TensorMeta> = NameMap::new();
        let mut i: usize = 0;
        assert(t.take(0) =~= Seq::<(Seq<char>, MetaView)>::empty());
        assert(holds_received(tensors@, t.take(0)));
        while i < sent_in.len()
            invariant
                i <= sent_in@.len(),
                sent_in == w.0,
                t == tensors_view(w.0@),
                tensors.wf(),
                holds_received(tensors@, t.take(i as int)),
                forall|k: int| 0 <= k < i ==> (#[trigger] t[k]).1.3 <= 3,
            decreases sent_in@.len() - i,
        {
            assert(t[i as int] == (sent_in@[i as int].0@, meta_view(sent_in@[i as int].1)));
            match from_wire_meta(&sent_in[i].1) {
                Some(meta) => {
                    let ghost before = tensors@;
                    tensors.insert(sent_in[i].0.clone(), meta);
                    proof {
                        let next = t.take(i + 1);
                        assert(next.drop_last() =~= t.take(i as int));
                        assert(next.last() == t[i as int]);
                        assert(tensors@.dom() =~= received(next).dom());
                        assert forall|k: Seq<char>| #[trigger]
                            tensors@.contains_key(k) implies tensors@[k].buffer is None && sent(
                            tensors@[k],
                        ) == received(next)[k] by {
                            if k != t[i as int].0 {
                                assert(before.contains_key(k));
                            }
                        }
                    }
                },
                None => {
                    return Err(ShardError::UnknownDist { tag: sent_in[i].1.3 });
                },
            }
            i = i + 1;
        }
        assert(t.take(i as int) =~= t);
        let mut file_tensors: Vec<FileTensors> = Vec::new();
        let mut k: usize = 0;
        assert(listed_groups(file_tensors@) =~= groups_view(groups@).take(0));
        while k < groups.len()
            invariant
                k <= groups@.len(),
                listed_groups(file_tensors@) == groups_view(groups@).take(k as int),
            decreases groups@.len() - k,
        {
            let path = groups[k].0.clone();
            let names = copy_texts(&groups[k].1);
            let ghost before = listed_groups(file_tensors@);
            let ghost all = groups_view(groups@);
            file_tensors.push(FileTensors { path, names });
            assert(listed_groups(file_tensors@) =~= before.push(all[k as int]));
            assert(all.take(k + 1) =~= all.take(k as int).push(all[k as int]));
            k = k + 1;
        }
        assert(groups_view(groups@).take(k as int) =~= groups_view(groups@));
        Ok(TensorIndex { tensors, weight_files, file_tensors, max_file_size })
    }

    /// The two messages by which the root hands out its index: a length, and as many bytes.
    pub fn bcast_from_root(&self) -> (r: Result<(Vec<u8>, Vec<u8>), ShardError>)
        requires
            self.wf(),
        ensures
            r is Ok,
            r matches Ok((size, data)) ==> {
                &&& size@ == framing::le_bytes(data@.len(), 8)
                &&& data@ == wire_bytes(
                    sent_tensors(*self),
                    text::texts(self.weight_files@),
                    listed_groups(self.file_tensors@),
                    self.max_file_size,
                )
            },
    {
        let w = self.to_wire();
        match serialize(&w) {
            Ok(data) => {
                let size = encode_len(data.len());
                Ok((size, data))
            },
            Err(e) => Err(ShardError::Serialize(e)),
        }
    }

    /// How many bytes a rank other than the root has to receive after the first message.
    pub fn bcast_len(is_root: bool, size: &[u8]) -> (r: usize)
        requires
            !is_root,
            size@.len() == 8,
        ensures
            r == framing::le_value(size@) as u64 as usize,
    {
        decode_len(size)
    }

    /// Builds the index of a rank other than the root from the second message.
    pub fn bcast(is_root: bool, data: &[u8]) -> (r: Result<TensorIndex, ShardError>)
        requires
            !is_root,
        ensures
            forall|t: TensorsView, f: Seq<Seq<char>>, g: GroupsView, n: usize|
                data@ == #[trigger] wire_bytes(t, f, g, n) ==> is_arrival(t, f, g, n, r),
            r matches Ok(ti) ==> ti.wf(),
            r matches Err(e) ==> e is Deserialize || e is UnknownDist,
    {
        match deserialize(data) {
            Ok(w) => Self::from_wire(w),
            Err(e) => Err(ShardError::Deserialize(e)),
        }
    }
}

/// The length in the first message of a broadcast is that of the second.
pub proof fn law_broadcast_length(data: Seq<u8>)
    requires
        data.len() <= usize::MAX,
    ensures
        framing::le_bytes(data.len(), 8).len() == 8,
        framing::le_value(framing::le_bytes(data.len(), 8)) as u64 as usize == data.len(),
{
    framing::lemma_le_limit();
    framing::law_le_read_back(data.len(), 8);
}

proof fn lemma_received(t: TensorsView)
    requires
        forall|i: int, j: int| 0 <= i < j < t.len() ==> (#[trigger] t[i]).0 != (#[trigger] t[j]).0,
    ensures
        forall|i: int|
            0 <= i < t.len() ==> received(t).contains_key((#[trigger] t[i]).0) && received(t)[t[i].0]
                == t[i].1,
        forall|k: Seq<char>| #[trigger]
            received(t).contains_key(k) ==> exists|i: int|
                0 <= i < t.len() && (#[trigger] t[i]).0 == k,
    decreases t.len(),
{
    if t.len() > 0 {
        let before = t.drop_last();
        let last = t.len() - 1;
        assert forall|i: int, j: int| 0 <= i < j < before.len() implies (#[trigger] before[i]).0
            != (#[trigger] before[j]).0 by {
            assert(t[i].0 != t[j].0);
        }
        lemma_received(before);
        assert forall|i: int| 0 <= i < t.len() implies received(t).contains_key((#[trigger] t[i]).0)
            && received(t)[t[i].0] == t[i].1 by {
            if i < last {
                assert(before[i] == t[i]);
                assert(t[i].0 != t[last].0);
            }
        }
        assert forall|k: Seq<char>| #[trigger] received(t).contains_key(k) implies exists|i: int|
            0 <= i < t.len() && (#[trigger] t[i]).0 == k by {
            if k == t[last].0 {
                assert(t[last].0 == k);
            } else {
                assert(received(before).contains_key(k));
                let i = choose|i: int| 0 <= i < before.len() && (#[trigger] before[i]).0 == k;
                assert(t[i] == before[i]);
            }
        }
    }
}

/// Two ranks know the same of a tensor, but that the second has no buffer for it.
pub open spec fn same_but_buffer(a: TensorMeta, b: TensorMeta) -> bool {
    &&& b.src_dtype@ == a.src_dtype@
    &&& b.shape == a.shape
    &&& b.data_offsets == a.data_offsets
    &&& b.dist == a.dist
    &&& b.buffer is None
    &&& b.dst_dtype is Some <==> a.dst_dtype is Some
    &&& a.dst_dtype is Some ==> b.dst_dtype->0@ == a.dst_dtype->0@
}

/// Two lists are of the same file and have the same names, in the same order.
pub open spec fn same_list(a: FileTensors, b: FileTensors) -> bool {
    &&& b.path@ == a.path@
    &&& b.names@.len() == a.names@.len()
    &&& forall|i: int| 0 <= i < a.names@.len() ==> (#[trigger] b.names@[i])@ == a.names@[i]@
}

proof fn lemma_arrived(root: TensorIndex, r: Result<TensorIndex, ShardError>)
    requires
        root.wf(),
        is_arrival(
            sent_tensors(root),
            text::texts(root.weight_files@),
            listed_groups(root.file_tensors@),
            root.max_file_size,
            r,
        ),
    ensures
        r matches Ok(rank) && {
            &&& rank.wf()
            &&& rank.tensors@.dom() == root.tensors@.dom()
            &&& forall|k: Seq<char>| #[trigger]
                root.tensors@.contains_key(k) ==> same_but_buffer(
                    root.tensors@[k],
                    rank.tensors@[k],
                )
            &&& rank.weight_files@.len() == root.weight_files@.len()
            &&& forall|i: int|
                0 <= i < root.weight_files@.len() ==> (#[trigger] rank.weight_files@[i])@
                    == root.weight_files@[i]@
            &&& rank.file_tensors@.len() == root.file_tensors@.len()
            &&& forall|i: int|
                0 <= i < root.file_tensors@.len() ==> same_list(
                    root.file_tensors@[i],
                    #[trigger] rank.file_tensors@[i],
                )
            &&& rank.max_file_size == root.max_file_size
        },
{
    let t = sent_tensors(root);
    let names = root.tensors.order();
    root.tensors.lemma_order();
    assert forall|i: int| 0 <= i < t.len() implies (#[trigger] t[i]).1.3 <= 3 by {}
    assert forall|i: int, j: int| 0 <= i < j < t.len() implies (#[trigger] t[i]).0 != (
    #[trigger] t[j]).0 by {
        assert(names[i] != names[j]);
    }
    lemma_received(t);
    let rank = r->Ok_0;
    assert forall|k: Seq<char>| #[trigger]
        root.tensors@.contains_key(k) implies rank.tensors@.contains_key(k) && sent(
        rank.tensors@[k],
    ) == sent(root.tensors@[k]) && rank.tensors@[k].buffer is None by {
        assert(names.contains(k));
        let i = choose|i: int| 0 <= i < names.len() && names[i] == k;
        assert(t[i].0 == k);
        assert(received(t).dom().contains(k));
        assert(rank.tensors@.dom().contains(k));
    }
    assert forall|k: Seq<char>| rank.tensors@.dom().contains(k) implies root.tensors@.dom().contains(
        k,
    ) by {
        assert(received(t).contains_key(k));
        let i = choose|i: int| 0 <= i < t.len() && (#[trigger] t[i]).0 == k;
        assert(names.contains(names[i]));
    }
    assert(rank.tensors@.dom() =~= root.tensors@.dom());
    lemma_same_texts(root.weight_files@, rank.weight_files@);
    let (ga, gb) = (listed_groups(root.file_tensors@), listed_groups(rank.file_tensors@));
    assert(ga.len() == root.file_tensors@.len() && gb.len() == rank.file_tensors@.len());
    assert forall|i: int| 0 <= i < root.file_tensors@.len() implies same_list(
        root.file_tensors@[i],
        #[trigger] rank.file_tensors@[i],
    ) by {
        assert(ga[i] == gb[i]);
        lemma_same_texts(root.file_tensors@[i].names@, rank.file_tensors@[i].names@);
    }
}

/// A rank that receives the bytes that the root sent has the root's index without the buffers:
/// the same tensors under the same names, the same files in the same order, and the same lists of
/// names.
pub proof fn law_broadcast(root: TensorIndex, data: Seq<u8>, r: Result<TensorIndex, ShardError>)
    requires
        root.wf(),
        data == wire_bytes(
            sent_tensors(root),
            text::texts(root.weight_files@),
            listed_groups(root.file_tensors@),
            root.max_file_size,
        ),
        forall|t: TensorsView, f: Seq<Seq<char>>, g: GroupsView, n: usize|
            data == #[trigger] wire_bytes(t, f, g, n) ==> is_arrival(t, f, g, n, r),
    ensures
        r matches Ok(rank) && {
            &&& rank.wf()
            &&& rank.tensors@.dom() == root.tensors@.dom()
            &&& forall|k: Seq<char>| #[trigger]
                root.tensors@.contains_key(k) ==> same_but_buffer(
                    root.tensors@[k],
                    rank.tensors@[k],
                )
            &&& rank.weight_files@.len() == root.weight_files@.len()
            &&& forall|i: int|
                0 <= i < root.weight_files@.len() ==> (#[trigger] rank.weight_files@[i])@
                    == root.weight_files@[i]@
            &&& rank.file_tensors@.len() == root.file_tensors@.len()
            &&& forall|i: int|
                0 <= i < root.file_tensors@.len() ==> same_list(
                    root.file_tensors@[i],
                    #[trigger] rank.file_tensors@[i],
                )
            &&& rank.max_file_size == root.max_file_size
        },
{
    assert(is_arrival(
        sent_tensors(root),
        text::texts(root.weight_files@),
        listed_groups(root.file_tensors@),
        root.max_file_size,
        r,
    ));
    lemma_arrived(root, r);
}

/// What is taken out of an index to be sent makes up the same index again, without the buffers.
pub proof fn law_sent_and_arrived(
    root: TensorIndex,
    w: WireIndex,
    r: Result<TensorIndex, ShardError>,
)
    requires
        root.wf(),
        call_ensures(TensorIndex::to_wire, (&root,), w),
        call_ensures(TensorIndex::from_wire, (w,), r),
    ensures
        r matches Ok(rank) && {
            &&& rank.wf()
            &&& rank.tensors@.dom() == root.tensors@.dom()
            &&& forall|k: Seq<char>| #[trigger]
                root.tensors@.contains_key(k) ==> same_but_buffer(
                    root.tensors@[k],
                    rank.tensors@[k],
                )
            &&& rank.weight_files@.len() == root.weight_files@.len()
            &&& forall|i: int|
                0 <= i < root.weight_files@.len() ==> (#[trigger] rank.weight_files@[i])@
                    == root.weight_files@[i]@
            &&& rank.file_tensors@.len() == root.file_tensors@.len()
            &&& forall|i: int|
                0 <= i < root.file_tensors@.len() ==> same_list(
                    root.file_tensors@[i],
                    #[trigger] rank.file_tensors@[i],
                )
            &&& rank.max_file_size == root.max_file_size
        },
{
    lemma_arrived(root, r);
}

proof fn lemma_same_texts(a: Seq<String>, b: Seq<String>)
    requires
        text::texts(a) == text::texts(b),
    ensures
        a.len() == b.len(),
        forall|i: int| 0 <= i < a.len() ==> (#[trigger] b[i])@ == a[i]@,
{
    assert(text::texts(a).len() == a.len() && text::texts(b).len() == b.len());
    assert forall|i: int| 0 <= i < a.len() implies (#[trigger] b[i])@ == a[i]@ by {
        assert(text::texts(a)[i] == a[i]@ && text::texts(b)[i] == b[i]@);
    }
}

/// The two messages of the root tell a rank how much to receive, and give it the root's index without
/// the buffers.
pub proof fn law_index_arrives(
    root: TensorIndex,
    sent_out: Result<(Vec<u8>, Vec<u8>), ShardError>,
    size: &[u8],
    data: &[u8],
    len: usize,
    r: Result<TensorIndex, ShardError>,
)
    requires
        root.wf(),
        call_ensures(TensorIndex::bcast_from_root, (&root,), sent_out),
        sent_out is Ok ==> size@ == sent_out->Ok_0.0@ && data@ == sent_out->Ok_0.1@,
        call_ensures(TensorIndex::bcast_len, (false, size), len),
        call_ensures(TensorIndex::bcast, (false, data), r),
        data@.len() <= usize::MAX,
    ensures
        sent_out is Ok,
        size@.len() == 8,
        len == data@.len(),
        r is Ok,
        ({
            let rank = r->Ok_0;
            &&& rank.wf()
            &&& rank.tensors@.dom() == root.tensors@.dom()
            &&& forall|k: Seq<char>| #[trigger]
                root.tensors@.contains_key(k) ==> same_but_buffer(
                    root.tensors@[k],
                    rank.tensors@[k],
                )
            &&& rank.weight_files@.len() == root.weight_files@.len()
            &&& forall|i: int|
                0 <= i < root.weight_files@.len() ==> (#[trigger] rank.weight_files@[i])@
                    == root.weight_files@[i]@
            &&& rank.file_tensors@.len() == root.file_tensors@.len()
            &&& forall|i: int|
                0 <= i < root.file_tensors@.len() ==> same_list(
                    root.file_tensors@[i],
                    #[trigger] rank.file_tensors@[i],
                )
            &&& rank.max_file_size == root.max_file_size
        }),
{
    law_broadcast_length(data@);
    law_broadcast(root, data@, r);
}

/// What arrives is refused if a tensor is split in a way that there is none of, and the first such
/// tensor tells why. Else every tensor that arrived is held, without a buffer: of one name, the last.
pub proof fn law_arrival(w: WireIndex, r: Result<TensorIndex, ShardError>, i: int)
    requires
        call_ensures(TensorIndex::from_wire, (w,), r),
        0 <= i < w.0@.len(),
    ensures
        r is Ok ==> w.0@[i].1.3 < 4,
        r is Err ==> r->Err_0 is UnknownDist && r->Err_0->tag >= 4,
        r is Err && w.0@[i].1.3 >= 4 && (forall|k: int| 0 <= k < i ==> (#[trigger] w.0@[k]).1.3 < 4)
            ==> r->Err_0->tag == w.0@[i].1.3,
        r is Ok && (forall|k: int| i < k < w.0@.len() ==> (#[trigger] w.0@[k]).0@ != w.0@[i].0@)
            ==> {
            let m = w.0@[i].1;
            &&& r->Ok_0.tensors@.contains_key(w.0@[i].0@)
            &&& arrived_as(m, r->Ok_0.tensors@[w.0@[i].0@])
        },
        r is Ok ==> r->Ok_0.max_file_size == w.3,
{
    let t = tensors_view(w.0@);
    assert(t.len() == w.0@.len());
    assert forall|k: int| 0 <= k < t.len() implies (#[trigger] t[k]) == (
        w.0@[k].0@,
        meta_view(w.0@[k].1),
    ) by {}
    assert(t[i].1.3 == w.0@[i].1.3);
    if r is Err {
        let tag = r->Err_0->tag;
        let j = choose|j: int|
            0 <= j < t.len() && (#[trigger] t[j]).1.3 == tag && tag > 3 && forall|k: int|
                0 <= k < j ==> (#[trigger] t[k]).1.3 <= 3;
        assert(t[j].1.3 == w.0@[j].1.3);
        if w.0@[i].1.3 >= 4 && (forall|k: int| 0 <= k < i ==> (#[trigger] w.0@[k]).1.3 < 4) {
            if j < i {
                assert(w.0@[j].1.3 < 4);
            }
            if i < j {
                assert(t[i].1.3 <= 3);
            }
        }
    }
    if r is Ok && (forall|k: int| i < k < w.0@.len() ==> (#[trigger] w.0@[k]).0@ != w.0@[i].0@) {
        assert forall|k: int| i < k < t.len() implies (#[trigger] t[k]).0 != t[i].0 by {
            assert(w.0@[k].0@ != w.0@[i].0@);
        }
        lemma_last_received(t, i);
        let m = r->Ok_0.tensors@;
        assert(received(t).dom().contains(t[i].0));
        assert(m.dom().contains(t[i].0));
        assert(m.contains_key(t[i].0));
    }
}

/// A tensor is held as it arrived.
pub open spec fn arrived_as(m: WireMeta, meta: TensorMeta) -> bool {
    &&& meta.src_dtype@ == m.0@
    &&& meta.shape == (match m.1 {
        Ok(n) => TensorShape::D1(n),
        Err((r, c)) => TensorShape::D2(r, c),
    })
    &&& meta.data_offsets == m.2
    &&& m.3 == 0 <==> meta.dist == Dist::Replicated
    &&& m.3 == 1 <==> meta.dist == Dist::ColumnSharded
    &&& m.3 == 2 <==> meta.dist == Dist::RowSharded
    &&& m.3 == 3 <==> meta.dist == Dist::VocabParallel
    &&& meta.buffer is None
    &&& meta.dst_dtype is Some <==> m.4 is Some
    &&& m.4 is Some ==> meta.dst_dtype->0@ == m.4->0@
}

proof fn lemma_last_received(t: TensorsView, i: int)
    requires
        0 <= i < t.len(),
        forall|k: int| i < k < t.len() ==> (#[trigger] t[k]).0 != t[i].0,
    ensures
        received(t).contains_key(t[i].0),
        received(t)[t[i].0] == t[i].1,
    decreases t.len(),
{
    if i < t.len() - 1 {
        let before = t.drop_last();
        assert(t[t.len() - 1].0 != t[i].0);
        assert forall|k: int| i < k < before.len() implies (#[trigger] before[k]).0 != before[i].0 by {
            assert(t[k].0 != t[i].0);
        }
        lemma_last_received(before, i);
    }
}

} // verus!
