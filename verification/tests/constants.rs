use psutil::{Constants, Error};

#[test]
fn positive_constants_are_accepted() {
    let c = Constants::new(100, 4096).unwrap();
    assert_eq!(c.ticks_per_second(), 100);
    assert_eq!(c.page_size(), 4096);
    let c = Constants::new(1, 1).unwrap();
    assert_eq!(c.ticks_per_second(), 1);
    assert_eq!(c.page_size(), 1);
    let c = Constants::new(i64::MAX, i64::MAX).unwrap();
    assert_eq!(c.ticks_per_second(), i64::MAX as u64);
    assert_eq!(c.page_size(), i64::MAX as u64);
}

#[test]
fn failed_queries_are_refused() {
    assert_eq!(Constants::new(-1, 4096).err(), Some(Error::Configuration));
    assert_eq!(Constants::new(100, -1).err(), Some(Error::Configuration));
    assert_eq!(Constants::new(0, 4096).err(), Some(Error::Configuration));
    assert_eq!(Constants::new(100, 0).err(), Some(Error::Configuration));
    assert_eq!(Constants::new(-1, -1).err(), Some(Error::Configuration));
    assert_eq!(Constants::new(i64::MIN, 1).err(), Some(Error::Configuration));
}

#[test]
fn error_numbers_are_classified() {
    assert_eq!(Error::from_errno(2), Some(Error::NotFound));
    assert_eq!(Error::from_errno(3), Some(Error::NotFound));
    assert_eq!(Error::from_errno(1), Some(Error::PermissionDenied));
    assert_eq!(Error::from_errno(13), Some(Error::PermissionDenied));
    assert_eq!(Error::from_errno(0), None);
    assert_eq!(Error::from_errno(5), None);
    assert_eq!(Error::from_errno(22), None);
    assert_eq!(Error::from_errno(-1), None);
    assert_eq!(psutil::error::EPERM, 1);
    assert_eq!(psutil::error::ENOENT, 2);
    assert_eq!(psutil::error::ESRCH, 3);
    assert_eq!(psutil::error::EACCES, 13);
}
