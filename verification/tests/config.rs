use p3_fri::{FriConfig, FriConfigImpl};

type Config = FriConfigImpl<u64, u64, (), u8, ()>;

#[test]
fn new_keeps_every_parameter() {
    let config: Config = FriConfigImpl::new(1, 3, 16, 7u8);
    assert_eq!(config.log_blowup(), 1);
    assert_eq!(config.num_queries(), 3);
    assert_eq!(config.proof_of_work_bits(), 16);
    assert_eq!(*config.commit_phase_mmcs(), 7u8);
}

#[test]
fn blowup_is_two_to_the_log_blowup() {
    let config: Config = FriConfigImpl::new(0, 1, 0, 0u8);
    assert_eq!(config.blowup(), 1);
    let config: Config = FriConfigImpl::new(1, 1, 0, 0u8);
    assert_eq!(config.blowup(), 2);
    let config: Config = FriConfigImpl::new(5, 1, 0, 0u8);
    assert_eq!(config.blowup(), 32);
}
