use monocore::vfs::metadata::{Group, Metadata, Mode, ModeType, Other, Timestamp, User};

fn low_bits(m: &Metadata) -> u32 {
    u32::from(*m.get_mode()) & 0o777
}

#[test]
fn test_metadata_new() {
    let metadata = Metadata::new(ModeType::File);
    assert_eq!(metadata.get_mode(), &Mode::new(ModeType::File));
    assert_eq!(metadata.get_size(), 0);
}

#[test]
fn test_entity_type() {
    let mut metadata = Metadata::new(ModeType::File);

    metadata.set_type(ModeType::File);
    assert!(matches!(metadata.get_type(), Some(ModeType::File)));

    metadata.set_type(ModeType::Directory);
    assert!(matches!(metadata.get_type(), Some(ModeType::Directory)));

    metadata.set_type(ModeType::Symlink);
    assert!(matches!(metadata.get_type(), Some(ModeType::Symlink)));

    metadata.set_type(ModeType::File);
    metadata.set_permissions(User::RWX | Group::RWX | Other::RWX);
    assert!(matches!(metadata.get_type(), Some(ModeType::File)));
}

#[test]
fn test_basic_permissions() {
    let mut metadata = Metadata::new(ModeType::File);

    metadata.set_permissions(User::R);
    assert_eq!(low_bits(&metadata), 0o400);

    metadata.set_permissions(Group::W);
    assert_eq!(low_bits(&metadata), 0o020);

    metadata.set_permissions(Other::X);
    assert_eq!(low_bits(&metadata), 0o001);
}

#[test]
fn test_combined_permissions() {
    let mut metadata = Metadata::new(ModeType::File);

    metadata.set_permissions(User::RW);
    assert_eq!(low_bits(&metadata), 0o600);

    metadata.set_permissions(Group::RX);
    assert_eq!(low_bits(&metadata), 0o050);

    metadata.set_permissions(Other::WX);
    assert_eq!(low_bits(&metadata), 0o003);

    metadata.set_permissions(User::RWX);
    assert_eq!(low_bits(&metadata), 0o700);
}

#[test]
fn test_permission_combinations() {
    let mut metadata = Metadata::new(ModeType::File);

    metadata.set_permissions(User::RW | Group::R);
    assert_eq!(low_bits(&metadata), 0o640);

    metadata.set_permissions(User::RWX | Group::RX | Other::R);
    assert_eq!(low_bits(&metadata), 0o754);

    let perms = User::RW | Group::R | Other::X;
    metadata.set_permissions(perms);
    assert_eq!(low_bits(&metadata), 0o641);
}

#[test]
fn test_permission_updates() {
    let base_perms = User::RW | Group::R;
    let updated = base_perms | Other::X;

    let mut metadata = Metadata::new(ModeType::File);
    metadata.set_permissions(updated);
    assert_eq!(low_bits(&metadata), 0o641);

    let perms = User::RW | Group::R;
    let with_other = perms | Other::X;
    let with_updated_group = with_other | Group::RWX;

    metadata.set_permissions(with_updated_group);
    assert_eq!(low_bits(&metadata), 0o671);
}

#[test]
fn test_none_permissions() {
    let mut metadata = Metadata::new(ModeType::File);

    metadata.set_permissions(User::Empty);
    assert_eq!(low_bits(&metadata), 0);

    metadata.set_permissions(User::RWX | Group::RWX | Other::RWX);
    assert_eq!(low_bits(&metadata), 0o777);

    metadata.set_permissions(User::Empty | Group::RWX | Other::RWX);
    assert_eq!(low_bits(&metadata), 0o077);
}

#[test]
fn test_permission_clearing() {
    let mut metadata = Metadata::new(ModeType::File);

    metadata.set_permissions(User::RWX | Group::RWX | Other::RWX);
    assert_eq!(low_bits(&metadata), 0o777);

    metadata.set_permissions(User::R | Group::R | Other::R);
    assert_eq!(low_bits(&metadata), 0o444);

    metadata.set_permissions(User::W);
    assert_eq!(low_bits(&metadata), 0o200);
}

#[test]
fn test_mode_type_display() {
    assert_eq!(ModeType::File.to_string(), "-");
    assert_eq!(ModeType::Directory.to_string(), "d");
    assert_eq!(ModeType::Symlink.to_string(), "l");
}

#[test]
fn test_mode_perms_display() {
    assert_eq!((User::RW | Group::R | Other::R).to_string(), "rw-r--r--");
    assert_eq!((User::RWX | Group::RX | Other::Empty).to_string(), "rwxr-x---");
    assert_eq!((User::RWX | Group::RWX | Other::RWX).to_string(), "rwxrwxrwx");
    assert_eq!((User::Empty | Group::Empty | Other::Empty).to_string(), "---------");
}

#[test]
fn test_mode_display() {
    let mut mode = Mode::new(ModeType::File);

    mode.set_type(ModeType::File);
    mode.set_permissions(User::RW | Group::R | Other::R);
    assert_eq!(mode.to_string(), "-rw-r--r--");

    mode.set_type(ModeType::Directory);
    mode.set_permissions(User::RWX | Group::RX | Other::Empty);
    assert_eq!(mode.to_string(), "drwxr-x---");

    mode.set_type(ModeType::Symlink);
    mode.set_permissions(User::RWX | Group::RWX | Other::RWX);
    assert_eq!(mode.to_string(), "lrwxrwxrwx");
}

#[test]
fn test_access_time() {
    let mut metadata = Metadata::new(ModeType::File);
    let original_atime = *metadata.get_accessed_at();

    let new_time = Timestamp { secs: original_atime.secs + 10, nanos: original_atime.nanos };
    metadata.set_accessed_at(new_time);

    assert_ne!(metadata.get_accessed_at(), &original_atime);
    assert_eq!(metadata.get_accessed_at(), &new_time);
}

#[test]
fn test_unix_ids() {
    let metadata = Metadata::new(ModeType::File);

    assert_eq!(metadata.get_uid(), users::get_current_uid());
    assert_eq!(metadata.get_gid(), users::get_current_gid());

    let mut metadata = Metadata::with_root_ownership(ModeType::File);
    assert_eq!(metadata.get_uid(), 0);
    assert_eq!(metadata.get_gid(), 0);

    metadata.set_uid(1000);
    metadata.set_gid(1000);

    assert_eq!(metadata.get_uid(), 1000);
    assert_eq!(metadata.get_gid(), 1000);

    metadata.set_uid(2000);
    metadata.set_gid(2000);

    assert_eq!(metadata.get_uid(), 2000);
    assert_eq!(metadata.get_gid(), 2000);
}

#[test]
fn test_metadata_clone() {
    let mut original = Metadata::with_root_ownership(ModeType::File);
    original.set_uid(1000);
    original.set_gid(1000);
    original.set_size(100);

    let cloned = original.clone();

    assert_eq!(cloned.get_uid(), original.get_uid());
    assert_eq!(cloned.get_gid(), original.get_gid());
    assert_eq!(cloned.get_size(), original.get_size());
    assert_eq!(cloned.get_accessed_at(), original.get_accessed_at());
}

#[test]
fn fresh_metadata_has_default_modes() {
    assert_eq!(u32::from(*Metadata::new(ModeType::File).get_mode()), 0o100644);
    assert_eq!(u32::from(*Metadata::new(ModeType::Directory).get_mode()), 0o040755);
    assert_eq!(u32::from(*Metadata::new(ModeType::Symlink).get_mode()), 0o120777);
}

#[test]
fn permissions_read_back_from_mode() {
    let mut metadata = Metadata::new(ModeType::Directory);
    metadata.set_permissions(User::RWX | Group::RX | Other::X);
    assert_eq!(metadata.get_permissions().to_string(), "rwxr-x--x");
    assert!(matches!(metadata.get_type(), Some(ModeType::Directory)));
}
