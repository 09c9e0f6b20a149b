use shmem_alloc::memory_handler::Access;
use shmem_alloc::posix_shmem_api::{ShmemFlags, ShmemProt};

#[test]
fn protection_words() {
    assert_eq!(ShmemProt::ProtRead.value(), 1);
    assert_eq!(ShmemProt::ProtReadWrite.value(), 3);
}

#[test]
fn sharing_word() {
    assert_eq!(ShmemFlags::MapShared.value(), 1);
}

#[test]
fn access_mode_maps_to_protection() {
    assert_eq!(Access::ReadOnly.get_prot_flag(), ShmemProt::ProtRead);
    assert_eq!(Access::ReadWrite.get_prot_flag(), ShmemProt::ProtReadWrite);
}
