use outerproduct::error::PreconditionViolation;
use outerproduct::label::{
    calc_label, calc_local_label, cross_label, fetch_label, fetch_memory_label, load_label,
    output_label, to_local_label, to_memory_label, to_remote_label,
};
use outerproduct::op::{volume, CrossPOp, Op, OpTrait, OpType, TransOp, VecOp};
use outerproduct::outer_product::Slice;

fn parsed(text: &str) -> serde_json::Value {
    serde_json::from_str::<serde_json::Value>(text).unwrap()
}

#[test]
fn trans_op_keeps_its_fields() {
    let op = TransOp::new(7, -1, 3, 4096, vec![2, 5], "load".to_string());
    assert_eq!(op.idx, 7);
    assert_eq!(op.deps, vec![2, 5]);
    assert!(op.op_type == OpType::TransOp);
    assert_eq!(op.src, -1);
    assert_eq!(op.dst, 3);
    assert_eq!(op.length, 4096);
    assert_eq!(op.format_op(), "load");
}

#[test]
fn vec_op_keeps_its_fields() {
    let op = VecOp::new(9, 5, 64, vec![8], "calc".to_string());
    assert_eq!(op.idx, 9);
    assert_eq!(op.deps, vec![8]);
    assert!(op.op_type == OpType::VecOp);
    assert_eq!(op.pid, 5);
    assert_eq!(op.length, 64);
    assert_eq!(op.format_op(), "calc");
}

#[test]
fn cross_op_keeps_its_fields() {
    let op = CrossPOp::new(1, 0, 4, 128, 256, vec![0], "cross".to_string());
    assert_eq!(op.idx, 1);
    assert_eq!(op.deps, vec![0]);
    assert!(op.op_type == OpType::CrossPOp);
    assert_eq!(op.pid, 0);
    assert_eq!((op.k, op.m, op.n), (4, 128, 256));
    assert_eq!(op.format_op(), "cross");
}

#[test]
fn trans_op_record() {
    let op = TransOp::new(7, -1, 3, 4096, vec![2, 5], "3 load".to_string());
    let expected = parsed(
        r#"{"index":7,"module":"global","dependency":[2,5],
            "op":{"src":-1,"dst":3,"len":4096},"op_content":{"name":"3 load"}}"#,
    );
    assert_eq!(op.dump2json(), expected);
}

#[test]
fn trans_op_record_without_dependencies() {
    let op = TransOp::new(0, 2, -1, 0, vec![], String::new());
    let expected = parsed(
        r#"{"index":0,"module":"global","dependency":[],
            "op":{"src":2,"dst":-1,"len":0},"op_content":{"name":""}}"#,
    );
    assert_eq!(op.dump2json(), expected);
}

#[test]
fn vec_op_record() {
    let op = VecOp::new(9, 5, 64, vec![8], "Reducer 5 calc size 64".to_string());
    let expected = parsed(
        r#"{"index":9,"module":5,"dependency":[8],
            "op":{"complexity":64,"type":"elementwise"},
            "op_content":{"name":"Reducer 5 calc size 64"}}"#,
    );
    assert_eq!(op.dump2json(), expected);
}

#[test]
fn cross_op_record() {
    let op = CrossPOp::new(1, 0, 4, 128, 256, vec![0], "cross".to_string());
    let expected = parsed(
        r#"{"index":1,"module":0,"dependency":[0],
            "op":{"k":4,"m":128,"n":256,"complexity":131072,"type":"crossproduct"},
            "op_content":{"name":"cross"}}"#,
    );
    assert_eq!(op.dump2json(), expected);
}

#[test]
fn cross_op_record_of_an_empty_block() {
    let op = CrossPOp::new(3, 2, usize::MAX, 0, usize::MAX, vec![], "x".to_string());
    let value = op.dump2json();
    assert_eq!(value["op"]["complexity"], serde_json::Value::from(0u64));
    assert_eq!(value["op"]["k"], serde_json::Value::from(usize::MAX));
}

#[test]
fn record_field_sets_are_exact() {
    let t = TransOp::new(1, 0, 1, 2, vec![], "t".to_string()).dump2json();
    let keys: Vec<&String> = t.as_object().unwrap().keys().collect();
    assert_eq!(keys, ["dependency", "index", "module", "op", "op_content"]);
    let op_keys: Vec<&String> = t["op"].as_object().unwrap().keys().collect();
    assert_eq!(op_keys, ["dst", "len", "src"]);
    let v = VecOp::new(1, 0, 1, vec![], "v".to_string()).dump2json();
    let op_keys: Vec<&String> = v["op"].as_object().unwrap().keys().collect();
    assert_eq!(op_keys, ["complexity", "type"]);
    let c = CrossPOp::new(1, 0, 1, 1, 1, vec![], "c".to_string()).dump2json();
    let op_keys: Vec<&String> = c["op"].as_object().unwrap().keys().collect();
    assert_eq!(op_keys, ["complexity", "k", "m", "n", "type"]);
    let name_keys: Vec<&String> = c["op_content"].as_object().unwrap().keys().collect();
    assert_eq!(name_keys, ["name"]);
}

#[test]
fn op_dispatches_to_its_kind() {
    let t = Op::Transfer(TransOp::new(4, 1, 2, 3, vec![0, 1], "t".to_string()));
    let v = Op::Accumulate(VecOp::new(5, 2, 3, vec![4], "v".to_string()));
    let c = Op::CrossProduct(CrossPOp::new(6, 1, 2, 3, 4, vec![5], "c".to_string()));
    assert!(t.kind() == OpType::TransOp);
    assert!(v.kind() == OpType::VecOp);
    assert!(c.kind() == OpType::CrossPOp);
    assert_eq!((t.idx(), v.idx(), c.idx()), (4, 5, 6));
    assert_eq!(t.deps(), &vec![0, 1]);
    assert_eq!(v.deps(), &vec![4]);
    assert_eq!(c.deps(), &vec![5]);
    assert_eq!(t.format_op(), "t");
    assert_eq!(v.format_op(), "v");
    assert_eq!(c.format_op(), "c");
    assert_eq!(
        t.dump2json(),
        TransOp::new(4, 1, 2, 3, vec![0, 1], "t".to_string()).dump2json()
    );
    assert_eq!(v.dump2json(), VecOp::new(5, 2, 3, vec![4], "v".to_string()).dump2json());
    assert_eq!(
        c.dump2json(),
        CrossPOp::new(6, 1, 2, 3, 4, vec![5], "c".to_string()).dump2json()
    );
}

#[test]
fn volume_is_the_product() {
    assert_eq!(volume(4, 128, 256), 131072);
    assert_eq!(volume(0, usize::MAX, usize::MAX), 0);
    assert_eq!(volume(usize::MAX, usize::MAX, 0), 0);
    assert_eq!(volume(1, 1, usize::MAX), usize::MAX);
}

#[test]
fn slice_size_is_the_product() {
    assert_eq!(Slice::new(4, 1024, 1024).size(), 4 * 1024 * 1024);
    assert_eq!(Slice::new(2, 8, 16).size(), 256);
    assert_eq!(Slice::new_empty().size(), 0);
    let s = Slice::new(3, 5, 7);
    assert_eq!((s.k, s.m, s.n), (3, 5, 7));
    let e = Slice::new_empty();
    assert_eq!((e.k, e.m, e.n), (0, 0, 0));
}

#[test]
fn labels_read_as_sentences() {
    assert_eq!(load_label(3, 12), "3 load map workload of k 12 from memory.");
    assert_eq!(cross_label(3, 128, 64, 4), "3 performs cross-product of 128 x 64 with k 4");
    assert_eq!(to_local_label(1, 5, 64), "Transfer from 1 to local 5, data size 64");
    assert_eq!(to_remote_label(1, 0, 5, 7), "Transfer from 1 to remote 0 of 5, data size 7");
    assert_eq!(to_memory_label(2, 0), "Transfer from 2 to -1, data size 0");
    assert_eq!(calc_local_label(4, 256), "Reducer 4 calc local of size 256");
    assert_eq!(fetch_label(4, 1, 9), "Reducer 4 fetch from 1 of size 9");
    assert_eq!(calc_label(4, 9), "Reducer 4 calc size 9");
    assert_eq!(fetch_memory_label(5, 100), "Reducer 5 fetch from memory of size 100");
    assert_eq!(output_label(5, 512), "Reducer 5 output of size 512");
}

#[test]
fn every_violation_explains_itself() {
    let all = [
        PreconditionViolation::NoMappers,
        PreconditionViolation::NoReducers,
        PreconditionViolation::TooManyElements,
        PreconditionViolation::DepthBelowMappers,
        PreconditionViolation::TooFewTiles,
        PreconditionViolation::WorkloadTooLarge,
        PreconditionViolation::ScheduleTooLong,
    ];
    for (i, a) in all.iter().enumerate() {
        assert!(!a.message().is_empty());
        for b in all.iter().skip(i + 1) {
            assert_ne!(a.message(), b.message());
        }
    }
    assert_eq!(
        PreconditionViolation::DepthBelowMappers.message(),
        "K dim should be larger-equal than mapper num."
    );
}
