//! The three kinds of scheduled operation and their structured records.

use crate::json::{
    int_list, json_int, json_object, json_of, json_text, json_uint, json_uint_list, object_insert,
    object_new, Json,
};
use crate::util::as_ints;
use vstd::prelude::*;

verus! {

#[derive(Clone, Copy, Debug, PartialEq, Eq, Structural)]
pub enum OpType {
    TransOp,
    VecOp,
    CrossPOp,
}

/// What every operation offers: a line of text for logs and a structured
/// record for analysis tools.
pub trait OpTrait {
    /// The text that `format_op` returns.
    spec fn text(&self) -> Seq<char>;

    /// The record that `dump2json` builds.
    spec fn record(&self) -> Json;

    /// Whether every number of the record fits a machine word.
    spec fn record_fits(&self) -> bool;

    fn format_op(&self) -> (s: String)
        ensures
            s@ == self.text(),
    ;

    fn dump2json(&self) -> (v: serde_json::Value)
        requires
            self.record_fits(),
        ensures
            json_of(v) == self.record(),
    ;
}

/// The field names of records are pairwise different.
pub proof fn lemma_field_names()
    ensures
        "index"@ != "module"@,
        "index"@ != "dependency"@,
        "index"@ != "op"@,
        "index"@ != "op_content"@,
        "module"@ != "dependency"@,
        "module"@ != "op"@,
        "module"@ != "op_content"@,
        "dependency"@ != "op"@,
        "dependency"@ != "op_content"@,
        "op"@ != "op_content"@,
        "src"@ != "dst"@,
        "src"@ != "len"@,
        "dst"@ != "len"@,
        "complexity"@ != "type"@,
        "k"@ != "m"@,
        "k"@ != "n"@,
        "k"@ != "complexity"@,
        "k"@ != "type"@,
        "m"@ != "n"@,
        "m"@ != "complexity"@,
        "m"@ != "type"@,
        "n"@ != "complexity"@,
        "n"@ != "type"@,
{
    reveal_strlit("index");
    reveal_strlit("module");
    reveal_strlit("dependency");
    reveal_strlit("op");
    reveal_strlit("op_content");
    reveal_strlit("src");
    reveal_strlit("dst");
    reveal_strlit("len");
    reveal_strlit("complexity");
    reveal_strlit("type");
    reveal_strlit("k");
    reveal_strlit("m");
    reveal_strlit("n");
    assert("index"@.len() == 5);
    assert("module"@.len() == 6);
    assert("dependency"@.len() == 10);
    assert("op"@.len() == 2);
    assert("op_content"@.len() == 10);
    assert("complexity"@.len() == 10);
    assert("type"@.len() == 4);
    assert("k"@.len() == 1);
    assert("m"@.len() == 1);
    assert("n"@.len() == 1);
    assert("dependency"@[0] != "op_content"@[0]);
    assert("src"@[0] != "dst"@[0]);
    assert("src"@[0] != "len"@[0]);
    assert("dst"@[0] != "len"@[0]);
    assert("k"@[0] != "m"@[0]);
    assert("k"@[0] != "n"@[0]);
    assert("m"@[0] != "n"@[0]);
}

/// The record field that carries the label of an operation.
pub open spec fn content_record(content: Seq<char>) -> Json {
    Json::Object(map!["name"@ => Json::Text(content)])
}

fn dump_content(content: &String) -> (v: serde_json::Value)
    ensures
        json_of(v) == content_record(content@),
{
    let mut fields = object_new();
    object_insert(&mut fields, "name", json_text(content.as_str()));
    json_object(fields)
}

/// A move of `length` elements from `src` to `dst`; `-1` stands for main
/// memory, any other value is the identifier of a processing element.
pub struct TransOp {
    pub idx: usize,
    pub deps: Vec<usize>,
    pub op_type: OpType,
    pub src: i32,
    pub dst: i32,
    pub length: usize,
    pub content: String,
}

pub struct TransOpView {
    pub idx: int,
    pub deps: Seq<int>,
    pub src: int,
    pub dst: int,
    pub length: int,
    pub content: Seq<char>,
}

impl View for TransOp {
    type V = TransOpView;

    open spec fn view(&self) -> TransOpView {
        TransOpView {
            idx: self.idx as int,
            deps: as_ints(self.deps@),
            src: self.src as int,
            dst: self.dst as int,
            length: self.length as int,
            content: self.content@,
        }
    }
}

impl TransOpView {
    /// `{index, module: "global", dependency, op: {src, dst, len},
    /// op_content: {name}}`.
    pub open spec fn record(self) -> Json {
        Json::Object(
            map![
                "index"@ => Json::Int(self.idx),
                "module"@ => Json::Text("global"@),
                "dependency"@ => int_list(self.deps),
                "op"@ => Json::Object(
                    map![
                        "src"@ => Json::Int(self.src),
                        "dst"@ => Json::Int(self.dst),
                        "len"@ => Json::Int(self.length),
                    ],
                ),
                "op_content"@ => content_record(self.content),
            ],
        )
    }
}

impl TransOpView {
    /// What the record holds under each of its field names.
    pub proof fn lemma_record(self)
        ensures
            self.record() matches Json::Object(fields) && {
                &&& fields.dom() =~= set!["index"@, "module"@, "dependency"@, "op"@, "op_content"@]
                &&& fields["index"@] == Json::Int(self.idx)
                &&& fields["module"@] == Json::Text("global"@)
                &&& fields["dependency"@] == int_list(self.deps)
                &&& fields["op"@] matches Json::Object(op) && {
                    &&& op.dom() =~= set!["src"@, "dst"@, "len"@]
                    &&& op["src"@] == Json::Int(self.src)
                    &&& op["dst"@] == Json::Int(self.dst)
                    &&& op["len"@] == Json::Int(self.length)
                }
                &&& fields["op_content"@] == content_record(self.content)
            },
    {
        lemma_field_names();
    }
}

impl TransOp {
    pub fn new(
        idx: usize,
        src: i32,
        dst: i32,
        length: usize,
        deps: Vec<usize>,
        content: String,
    ) -> (op: TransOp)
        ensures
            op@ == (TransOpView {
                idx: idx as int,
                deps: as_ints(deps@),
                src: src as int,
                dst: dst as int,
                length: length as int,
                content: content@,
            }),
            op.op_type == OpType::TransOp,
            op.idx == idx,
            op.deps == deps,
    {
        TransOp { idx, deps, op_type: OpType::TransOp, src, dst, length, content }
    }

}

impl OpTrait for TransOp {
    open spec fn text(&self) -> Seq<char> {
        self@.content
    }

    open spec fn record(&self) -> Json {
        self@.record()
    }

    open spec fn record_fits(&self) -> bool {
        true
    }

    fn format_op(&self) -> (s: String) {
        self.content.clone()
    }

    fn dump2json(&self) -> (v: serde_json::Value) {
        let mut op = object_new();
        object_insert(&mut op, "src", json_int(self.src));
        object_insert(&mut op, "dst", json_int(self.dst));
        object_insert(&mut op, "len", json_uint(self.length));
        let mut fields = object_new();
        object_insert(&mut fields, "index", json_uint(self.idx));
        object_insert(&mut fields, "module", json_text("global"));
        object_insert(&mut fields, "dependency", json_uint_list(&self.deps));
        object_insert(&mut fields, "op", json_object(op));
        object_insert(&mut fields, "op_content", dump_content(&self.content));
        json_object(fields)
    }
}

/// An elementwise accumulation of `length` elements on processing element
/// `pid`.
pub struct VecOp {
    pub idx: usize,
    pub deps: Vec<usize>,
    pub op_type: OpType,
    pub length: usize,
    pub pid: usize,
    pub content: String,
}

pub struct VecOpView {
    pub idx: int,
    pub deps: Seq<int>,
    pub pid: int,
    pub length: int,
    pub content: Seq<char>,
}

impl View for VecOp {
    type V = VecOpView;

    open spec fn view(&self) -> VecOpView {
        VecOpView {
            idx: self.idx as int,
            deps: as_ints(self.deps@),
            pid: self.pid as int,
            length: self.length as int,
            content: self.content@,
        }
    }
}

impl VecOpView {
    /// `{index, module: pid, dependency, op: {complexity, type:
    /// "elementwise"}, op_content: {name}}`.
    pub open spec fn record(self) -> Json {
        Json::Object(
            map![
                "index"@ => Json::Int(self.idx),
                "module"@ => Json::Int(self.pid),
                "dependency"@ => int_list(self.deps),
                "op"@ => Json::Object(
                    map![
                        "complexity"@ => Json::Int(self.length),
                        "type"@ => Json::Text("elementwise"@),
                    ],
                ),
                "op_content"@ => content_record(self.content),
            ],
        )
    }
}

impl VecOpView {
    /// What the record holds under each of its field names.
    pub proof fn lemma_record(self)
        ensures
            self.record() matches Json::Object(fields) && {
                &&& fields.dom() =~= set!["index"@, "module"@, "dependency"@, "op"@, "op_content"@]
                &&& fields["index"@] == Json::Int(self.idx)
                &&& fields["module"@] == Json::Int(self.pid)
                &&& fields["dependency"@] == int_list(self.deps)
                &&& fields["op"@] matches Json::Object(op) && {
                    &&& op.dom() =~= set!["complexity"@, "type"@]
                    &&& op["complexity"@] == Json::Int(self.length)
                    &&& op["type"@] == Json::Text("elementwise"@)
                }
                &&& fields["op_content"@] == content_record(self.content)
            },
    {
        lemma_field_names();
    }
}

impl VecOp {
    pub fn new(idx: usize, pid: usize, length: usize, deps: Vec<usize>, content: String) -> (op:
        VecOp)
        ensures
            op@ == (VecOpView {
                idx: idx as int,
                deps: as_ints(deps@),
                pid: pid as int,
                length: length as int,
                content: content@,
            }),
            op.op_type == OpType::VecOp,
            op.idx == idx,
            op.deps == deps,
    {
        VecOp { idx, deps, op_type: OpType::VecOp, length, pid, content }
    }

}

impl OpTrait for VecOp {
    open spec fn text(&self) -> Seq<char> {
        self@.content
    }

    open spec fn record(&self) -> Json {
        self@.record()
    }

    open spec fn record_fits(&self) -> bool {
        true
    }

    fn format_op(&self) -> (s: String) {
        self.content.clone()
    }

    fn dump2json(&self) -> (v: serde_json::Value) {
        let mut op = object_new();
        object_insert(&mut op, "complexity", json_uint(self.length));
        object_insert(&mut op, "type", json_text("elementwise"));
        let mut fields = object_new();
        object_insert(&mut fields, "index", json_uint(self.idx));
        object_insert(&mut fields, "module", json_uint(self.pid));
        object_insert(&mut fields, "dependency", json_uint_list(&self.deps));
        object_insert(&mut fields, "op", json_object(op));
        object_insert(&mut fields, "op_content", dump_content(&self.content));
        json_object(fields)
    }
}

/// The product `k * m * n`, where it fits a machine word.
pub fn volume(k: usize, m: usize, n: usize) -> (v: usize)
    requires
        k * m * n <= usize::MAX,
    ensures
        v == k * m * n,
{
    if k == 0 || m == 0 || n == 0 {
        assert(k * m * n == 0) by (nonlinear_arith)
            requires
                k == 0 || m == 0 || n == 0,
        ;
        0
    } else {
        assert(k * m <= k * m * n) by (nonlinear_arith)
            requires
                n >= 1,
        ;
        k * m * n
    }
}

/// A partial outer product over a `k` x `m` x `n` block on processing
/// element `pid`.
pub struct CrossPOp {
    pub idx: usize,
    pub deps: Vec<usize>,
    pub op_type: OpType,
    pub k: usize,
    pub m: usize,
    pub n: usize,
    pub pid: usize,
    pub content: String,
}

pub struct CrossPOpView {
    pub idx: int,
    pub deps: Seq<int>,
    pub pid: int,
    pub k: int,
    pub m: int,
    pub n: int,
    pub content: Seq<char>,
}

impl View for CrossPOp {
    type V = CrossPOpView;

    open spec fn view(&self) -> CrossPOpView {
        CrossPOpView {
            idx: self.idx as int,
            deps: as_ints(self.deps@),
            pid: self.pid as int,
            k: self.k as int,
            m: self.m as int,
            n: self.n as int,
            content: self.content@,
        }
    }
}

impl CrossPOpView {
    /// The number of multiplications of the block.
    pub open spec fn complexity(self) -> int {
        self.k * self.m * self.n
    }

    /// `{index, module: pid, dependency, op: {k, m, n, complexity, type:
    /// "crossproduct"}, op_content: {name}}`.
    pub open spec fn record(self) -> Json {
        Json::Object(
            map![
                "index"@ => Json::Int(self.idx),
                "module"@ => Json::Int(self.pid),
                "dependency"@ => int_list(self.deps),
                "op"@ => Json::Object(
                    map![
                        "k"@ => Json::Int(self.k),
                        "m"@ => Json::Int(self.m),
                        "n"@ => Json::Int(self.n),
                        "complexity"@ => Json::Int(self.complexity()),
                        "type"@ => Json::Text("crossproduct"@),
                    ],
                ),
                "op_content"@ => content_record(self.content),
            ],
        )
    }
}

impl CrossPOpView {
    /// What the record holds under each of its field names.
    pub proof fn lemma_record(self)
        ensures
            self.record() matches Json::Object(fields) && {
                &&& fields.dom() =~= set!["index"@, "module"@, "dependency"@, "op"@, "op_content"@]
                &&& fields["index"@] == Json::Int(self.idx)
                &&& fields["module"@] == Json::Int(self.pid)
                &&& fields["dependency"@] == int_list(self.deps)
                &&& fields["op"@] matches Json::Object(op) && {
                    &&& op.dom() =~= set!["k"@, "m"@, "n"@, "complexity"@, "type"@]
                    &&& op["k"@] == Json::Int(self.k)
                    &&& op["m"@] == Json::Int(self.m)
                    &&& op["n"@] == Json::Int(self.n)
                    &&& op["complexity"@] == Json::Int(self.k * self.m * self.n)
                    &&& op["type"@] == Json::Text("crossproduct"@)
                }
                &&& fields["op_content"@] == content_record(self.content)
            },
    {
        lemma_field_names();
    }
}

impl CrossPOp {
    pub fn new(
        idx: usize,
        pid: usize,
        k: usize,
        m: usize,
        n: usize,
        deps: Vec<usize>,
        content: String,
    ) -> (op: CrossPOp)
        ensures
            op@ == (CrossPOpView {
                idx: idx as int,
                deps: as_ints(deps@),
                pid: pid as int,
                k: k as int,
                m: m as int,
                n: n as int,
                content: content@,
            }),
            op.op_type == OpType::CrossPOp,
            op.idx == idx,
            op.deps == deps,
            op.k == k,
            op.m == m,
            op.n == n,
    {
        CrossPOp { idx, deps, op_type: OpType::CrossPOp, k, m, n, pid, content }
    }

}

impl OpTrait for CrossPOp {
    open spec fn text(&self) -> Seq<char> {
        self@.content
    }

    open spec fn record(&self) -> Json {
        self@.record()
    }

    open spec fn record_fits(&self) -> bool {
        self@.complexity() <= usize::MAX
    }

    fn format_op(&self) -> (s: String) {
        self.content.clone()
    }

    fn dump2json(&self) -> (v: serde_json::Value) {
        let complexity = volume(self.k, self.m, self.n);
        let mut op = object_new();
        object_insert(&mut op, "k", json_uint(self.k));
        object_insert(&mut op, "m", json_uint(self.m));
        object_insert(&mut op, "n", json_uint(self.n));
        object_insert(&mut op, "complexity", json_uint(complexity));
        object_insert(&mut op, "type", json_text("crossproduct"));
        let mut fields = object_new();
        object_insert(&mut fields, "index", json_uint(self.idx));
        object_insert(&mut fields, "module", json_uint(self.pid));
        object_insert(&mut fields, "dependency", json_uint_list(&self.deps));
        object_insert(&mut fields, "op", json_object(op));
        object_insert(&mut fields, "op_content", dump_content(&self.content));
        json_object(fields)
    }
}

/// A scheduled operation of any kind.
pub enum Op {
    Transfer(TransOp),
    Accumulate(VecOp),
    CrossProduct(CrossPOp),
}

pub enum OpView {
    Transfer(TransOpView),
    Accumulate(VecOpView),
    CrossProduct(CrossPOpView),
}

impl View for Op {
    type V = OpView;

    open spec fn view(&self) -> OpView {
        match self {
            Op::Transfer(op) => OpView::Transfer(op@),
            Op::Accumulate(op) => OpView::Accumulate(op@),
            Op::CrossProduct(op) => OpView::CrossProduct(op@),
        }
    }
}

impl OpView {
    /// The identifier of the operation.
    pub open spec fn idx(self) -> int {
        match self {
            OpView::Transfer(op) => op.idx,
            OpView::Accumulate(op) => op.idx,
            OpView::CrossProduct(op) => op.idx,
        }
    }

    /// The identifiers of the operations that this one waits for.
    pub open spec fn deps(self) -> Seq<int> {
        match self {
            OpView::Transfer(op) => op.deps,
            OpView::Accumulate(op) => op.deps,
            OpView::CrossProduct(op) => op.deps,
        }
    }

    /// The label of the operation.
    pub open spec fn content(self) -> Seq<char> {
        match self {
            OpView::Transfer(op) => op.content,
            OpView::Accumulate(op) => op.content,
            OpView::CrossProduct(op) => op.content,
        }
    }

    /// The structured record of the operation.
    pub open spec fn record(self) -> Json {
        match self {
            OpView::Transfer(op) => op.record(),
            OpView::Accumulate(op) => op.record(),
            OpView::CrossProduct(op) => op.record(),
        }
    }

    /// Whether every number of the record fits a machine word.
    pub open spec fn record_fits(self) -> bool {
        match self {
            OpView::Transfer(op) => true,
            OpView::Accumulate(op) => true,
            OpView::CrossProduct(op) => op.complexity() <= usize::MAX,
        }
    }
}

/// A list of operations as their views.
pub open spec fn op_views(ops: Seq<Op>) -> Seq<OpView> {
    ops.map_values(|op: Op| op@)
}

impl Op {
    pub fn idx(&self) -> (r: usize)
        ensures
            r == self@.idx(),
    {
        match self {
            Op::Transfer(op) => op.idx,
            Op::Accumulate(op) => op.idx,
            Op::CrossProduct(op) => op.idx,
        }
    }

    pub fn deps(&self) -> (r: &Vec<usize>)
        ensures
            as_ints(r@) == self@.deps(),
    {
        match self {
            Op::Transfer(op) => &op.deps,
            Op::Accumulate(op) => &op.deps,
            Op::CrossProduct(op) => &op.deps,
        }
    }

    /// The kind of the operation.
    pub fn kind(&self) -> (r: OpType)
        ensures
            r == match self@ {
                OpView::Transfer(_) => OpType::TransOp,
                OpView::Accumulate(_) => OpType::VecOp,
                OpView::CrossProduct(_) => OpType::CrossPOp,
            },
    {
        match self {
            Op::Transfer(_) => OpType::TransOp,
            Op::Accumulate(_) => OpType::VecOp,
            Op::CrossProduct(_) => OpType::CrossPOp,
        }
    }
}

impl OpTrait for Op {
    open spec fn text(&self) -> Seq<char> {
        self@.content()
    }

    open spec fn record(&self) -> Json {
        self@.record()
    }

    open spec fn record_fits(&self) -> bool {
        self@.record_fits()
    }

    fn format_op(&self) -> (s: String) {
        match self {
            Op::Transfer(op) => op.format_op(),
            Op::Accumulate(op) => op.format_op(),
            Op::CrossProduct(op) => op.format_op(),
        }
    }

    fn dump2json(&self) -> (v: serde_json::Value) {
        match self {
            Op::Transfer(op) => op.dump2json(),
            Op::Accumulate(op) => op.dump2json(),
            Op::CrossProduct(op) => op.dump2json(),
        }
    }
}

} // verus!
