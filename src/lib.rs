pub mod bitmap_image;
pub mod brightness;
pub mod converter;
pub mod cpixel;
pub mod dimensions;

pub use bitmap_image::BitmapImage;
pub use brightness::Brightness;
pub use converter::Converter;
pub use cpixel::Cpixel;
pub use dimensions::Dimensions;
