use proving_trie::sandbox::{Determinism, GasMeter, Origin, Sandbox, StorageMeter, Weight};

#[test]
fn new_sandbox_has_full_gas_and_no_value() {
    let sandbox = Sandbox::new([1u8; 32], Origin::Signed([2u8; 32]), 7u32);
    assert_eq!(sandbox.dest, [1u8; 32]);
    assert_eq!(sandbox.origin, Origin::Signed([2u8; 32]));
    assert_eq!(
        sandbox.gas_meter,
        GasMeter {
            gas_limit: Weight { ref_time: u64::MAX, proof_size: u64::MAX },
            gas_left: Weight { ref_time: u64::MAX, proof_size: u64::MAX },
            gas_left_lowest: Weight { ref_time: u64::MAX, proof_size: u64::MAX },
        }
    );
    assert_eq!(sandbox.storage_meter, StorageMeter { limit: 0, total_deposit: 0 });
    assert_eq!(sandbox.schedule, 7u32);
    assert_eq!(sandbox.value, 0);
    assert_eq!(sandbox.debug_message, None);
    assert_eq!(sandbox.determinism, Determinism::Enforced);
}

#[test]
fn call_stack_borrows_sandbox_meters() {
    let mut sandbox = Sandbox::new([3u8; 32], Origin::Root, ());
    sandbox.debug_message = Some(Vec::new());
    {
        let stack = sandbox.new_call();
        assert_eq!(stack.dest, [3u8; 32]);
        assert_eq!(stack.origin, Origin::Root);
        assert_eq!(stack.value, 0);
        assert_eq!(stack.determinism, Determinism::Enforced);
        stack.gas_meter.gas_left.ref_time = 5;
        stack.storage_meter.total_deposit = 9;
        stack.debug_message.unwrap().push(b'x');
    }
    assert_eq!(sandbox.gas_meter.gas_left.ref_time, 5);
    assert_eq!(sandbox.storage_meter.total_deposit, 9);
    assert_eq!(sandbox.debug_message, Some(vec![b'x']));
}

#[test]
fn call_stack_without_debug_buffer() {
    let mut sandbox = Sandbox::new([0u8; 32], Origin::Root, ());
    let stack = sandbox.new_call();
    assert!(stack.debug_message.is_none());
}
